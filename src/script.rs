//! The script side of a render: extracting the script from a message,
//! loading it as a coroutine, and the plain-value rules of its capability
//! surface.
use vstd::prelude::*;
use crate::text::{chars_of, push_char};

verus! {

/// Whether `pat` occurs in `s` at index `i`.
pub open spec fn occurs_at(s: Seq<char>, pat: Seq<char>, i: int) -> bool {
    0 <= i && i + pat.len() <= s.len() && s.subrange(i, i + pat.len()) == pat
}

/// Whether `i` is the first index at or after `from` where `pat` occurs in
/// `s`.
pub open spec fn first_at(s: Seq<char>, pat: Seq<char>, from: int, i: int) -> bool {
    from <= i && occurs_at(s, pat, i) && forall|k: int| from <= k < i ==> !occurs_at(s, pat, k)
}

/// The fence that opens a Lua code block.
pub open spec fn open_fence() -> Seq<char> {
    seq!['`', '`', '`', 'l', 'u', 'a', '\n']
}

/// The fence that closes a code block.
pub open spec fn close_fence() -> Seq<char> {
    seq!['\n', '`', '`', '`']
}

/// Whether the first Lua code block of `s` opens at `i` and closes at `j`.
pub open spec fn block_at(s: Seq<char>, i: int, j: int) -> bool {
    first_at(s, open_fence(), 0, i) && first_at(s, close_fence(), i + 7, j)
}

fn open_fence_chars() -> (r: Vec<char>)
    ensures
        r@ == open_fence(),
{
    let r = vec!['`', '`', '`', 'l', 'u', 'a', '\n'];
    assert(r@ =~= open_fence());
    r
}

fn close_fence_chars() -> (r: Vec<char>)
    ensures
        r@ == close_fence(),
{
    let r = vec!['\n', '`', '`', '`'];
    assert(r@ =~= close_fence());
    r
}

fn matches_at(s: &Vec<char>, pat: &Vec<char>, i: usize) -> (r: bool)
    ensures
        r == occurs_at(s@, pat@, i as int),
{
    if i > s.len() || pat.len() > s.len() - i {
        return false;
    }
    let n = s.len();
    let mut k: usize = 0;
    while k < pat.len()
        invariant
            n == s@.len(),
            k <= pat@.len(),
            i + pat@.len() <= s@.len(),
            forall|t: int| 0 <= t < k ==> s@[i + t] == pat@[t],
        decreases pat@.len() - k,
    {
        assert(i + k < s@.len());
        if s[i + k] != pat[k] {
            assert(s@.subrange(i as int, i + pat@.len())[k as int] != pat@[k as int]);
            return false;
        }
        k += 1;
    }
    assert(s@.subrange(i as int, i + pat@.len()) =~= pat@);
    true
}

fn find_from(s: &Vec<char>, pat: &Vec<char>, from: usize) -> (r: Option<usize>)
    ensures
        match r {
            Some(i) => first_at(s@, pat@, from as int, i as int),
            None => forall|k: int| from <= k ==> !occurs_at(s@, pat@, k),
        },
{
    let mut i: usize = from;
    while i <= s.len()
        invariant
            from <= i,
            forall|k: int| from <= k < i ==> !occurs_at(s@, pat@, k),
        decreases s@.len() + 1 - i,
    {
        if matches_at(s, pat, i) {
            return Some(i);
        }
        if i == s.len() {
            return None;
        }
        i += 1;
    }
    None
}

/// Extracts the code of the first ```` ```lua ```` block of `code`: what
/// lies between the first opening fence and the first closing fence after
/// it.
pub fn parse_markdown_lua_block(code: &str) -> (r: Option<&str>)
    ensures
        match r {
            Some(body) => exists|i: int, j: int|
                #[trigger] block_at(code@, i, j) && body@ == code@.subrange(i + 7, j),
            None => !exists|i: int, j: int| #[trigger] block_at(code@, i, j),
        },
{
    let cs = chars_of(code);
    let open = open_fence_chars();
    let close = close_fence_chars();
    match find_from(&cs, &open, 0) {
        None => None,
        Some(i) => {
            let n = cs.len();
            assert(n >= i + 7);
            let start = i + 7;
            match find_from(&cs, &close, start) {
                None => {
                    assert forall|a: int, b: int| !(#[trigger] block_at(code@, a, b)) by {
                        if first_at(code@, open_fence(), 0, a) {
                            assert(a == i);
                        }
                    }
                    None
                },
                Some(j) => {
                    let body = code.substring_char(start, j);
                    assert(block_at(code@, i as int, j as int));
                    Some(body)
                },
            }
        },
    }
}

/// What a script is wrapped in to be loaded as an expression whose value
/// the coroutine returns.
pub const EXPRESSION_HEAD: &'static str = "coroutine.create(function()\n    return ";

/// What a script is wrapped in to be loaded as a statement sequence.
pub const STATEMENT_HEAD: &'static str = "coroutine.create(function()\n";

/// What closes either wrapping.
pub const WRAP_TAIL: &'static str = "\nend)";

/// The source that loads `code` as an expression inside a coroutine.
pub fn expression_chunk(code: &str) -> (r: String)
    ensures
        r@ == EXPRESSION_HEAD@ + code@ + WRAP_TAIL@,
{
    let mut r = EXPRESSION_HEAD.to_string();
    r.append(code);
    r.append(WRAP_TAIL);
    r
}

/// The source that loads `code` as a statement sequence inside a
/// coroutine.
pub fn statement_chunk(code: &str) -> (r: String)
    ensures
        r@ == STATEMENT_HEAD@ + code@ + WRAP_TAIL@,
{
    let mut r = STATEMENT_HEAD.to_string();
    r.append(code);
    r.append(WRAP_TAIL);
    r
}

/// The report of a script that loads neither way.
pub open spec fn load_failure(with_return: Seq<char>, without_return: Seq<char>) -> Seq<char> {
    "Failed to load expression with return: "@ + with_return + " | without return: "@
        + without_return
}

/// Builds the report of a script that loads neither way from the two
/// errors.
pub fn load_failure_message(with_return: &str, without_return: &str) -> (r: String)
    ensures
        r@ == load_failure(with_return@, without_return@),
{
    let mut r = "Failed to load expression with return: ".to_string();
    r.append(with_return);
    r.append(" | without return: ");
    r.append(without_return);
    r
}

#[verifier::external_type_specification]
#[verifier::external_body]
pub struct ExLua(mlua::Lua);

#[verifier::external_type_specification]
#[verifier::external_body]
pub struct ExThread(mlua::Thread);

#[verifier::external_type_specification]
#[verifier::external_body]
pub struct ExLuaError(mlua::Error);

/// Relies on `mlua::Lua::load` and `mlua::Chunk::eval`: compiles `chunk`
/// and runs it, and hands back the coroutine it evaluates to, or the error.
#[verifier::external_body]
fn eval_coroutine(lua: &mlua::Lua, chunk: &str) -> Result<mlua::Thread, mlua::Error> {
    lua.load(chunk).eval::<mlua::Thread>()
}

/// Relies on the `Debug` form of `mlua::Error`: its description.
#[verifier::external_body]
fn describe_lua_error(e: &mlua::Error) -> String {
    format!("{e:?}")
}

/// What loading does after the expression attempt.
pub enum LoadStep<T> {
    /// The expression attempt succeeded: this is the script.
    Loaded(T),
    /// It failed with this error: try the statement form.
    TryStatements(String),
}

/// Decides after trying `code` as an expression: its success is the
/// result, and only its failure leads to the statement attempt.
pub fn after_expression_attempt<T>(outcome: Result<T, String>) -> (r: LoadStep<T>)
    ensures
        match outcome {
            Ok(t) => r == LoadStep::Loaded(t),
            Err(e) => r == LoadStep::<T>::TryStatements(e),
        },
{
    match outcome {
        Ok(t) => LoadStep::Loaded(t),
        Err(e) => LoadStep::TryStatements(e),
    }
}

/// Decides after trying `code` as a statement sequence, once the
/// expression attempt failed with `expression_error`: its success is the
/// result, and its failure gives the report of both failures.
pub fn after_statement_attempt<T>(expression_error: &str, outcome: Result<T, String>) -> (r: Result<
    T,
    String,
>)
    ensures
        match outcome {
            Ok(t) => r == Ok::<T, String>(t),
            Err(e) => r matches Err(m) && m@ == load_failure(expression_error@, e@),
        },
{
    match outcome {
        Ok(t) => Ok(t),
        Err(e) => Err(load_failure_message(expression_error, e.as_str())),
    }
}

/// Tries to load `chunk`, describing a failure.
fn attempt(lua: &mlua::Lua, chunk: &str) -> Result<mlua::Thread, String> {
    match eval_coroutine(lua, chunk) {
        Ok(thread) => Ok(thread),
        Err(e) => Err(describe_lua_error(&e)),
    }
}

/// Loads `code` as a coroutine: first as an expression whose value it
/// returns, and, where that fails, as a statement sequence (see
/// [`after_expression_attempt`] and [`after_statement_attempt`]). Where
/// both fail the error reports both failures.
pub fn load_coroutine(lua: &mlua::Lua, code: &str) -> (r: Result<mlua::Thread, String>)
    ensures
        r matches Err(m) ==> exists|a: Seq<char>, b: Seq<char>| m@ == #[trigger] load_failure(a, b),
{
    let first = attempt(lua, expression_chunk(code).as_str());
    match after_expression_attempt(first) {
        LoadStep::Loaded(thread) => Ok(thread),
        LoadStep::TryStatements(expression_error) => {
            let second = attempt(lua, statement_chunk(code).as_str());
            let r = after_statement_attempt(expression_error.as_str(), second);
            proof {
                if r is Err {
                    let m = r->Err_0;
                    let b = choose|b: Seq<char>| m@ == load_failure(expression_error@, b);
                    assert(m@ == load_failure(expression_error@, b));
                }
            }
            r
        },
    }
}

/// `values` joined with `sep` between each two.
pub open spec fn join_with(values: Seq<Seq<char>>, sep: char) -> Seq<char>
    decreases values.len(),
{
    if values.len() == 0 {
        Seq::empty()
    } else if values.len() == 1 {
        values[0]
    } else {
        join_with(values.drop_last(), sep).push(sep) + values.last()
    }
}

/// What the script's `output` and `print` emit: their arguments joined
/// with tabs.
pub fn join_values(values: &Vec<String>) -> (r: String)
    ensures
        r@ == join_with(values@.map_values(|v: String| v@), '\t'),
{
    let ghost vs = values@.map_values(|v: String| v@);
    let mut r = String::new();
    let mut i: usize = 0;
    while i < values.len()
        invariant
            i <= values@.len(),
            vs == values@.map_values(|v: String| v@),
            r@ == join_with(vs.subrange(0, i as int), '\t'),
        decreases values@.len() - i,
    {
        let ghost before = r@;
        if i > 0 {
            push_char(&mut r, '\t');
        }
        r.append(values[i].as_str());
        proof {
            let next = vs.subrange(0, i as int + 1);
            assert(next.drop_last() =~= vs.subrange(0, i as int));
            if i == 0 {
                assert(r@ =~= next[0]);
            } else {
                assert(r@ =~= before.push('\t') + next.last());
            }
        }
        i += 1;
    }
    assert(vs.subrange(0, values@.len() as int) =~= vs);
    r
}

/// Whether a streaming callback's answer lets the stream go on: only an
/// explicit `false` stops it.
pub fn continues_stream(answer: Option<bool>) -> (r: bool)
    ensures
        r == (answer != Some(false)),
{
    match answer {
        Some(false) => false,
        _ => true,
    }
}

} // verus!
