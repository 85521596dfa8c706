//! Greedy packing of a text's words into bounded message chunks.
//!
//! Words are separated by runs of spaces. Every other character, line
//! breaks included, belongs to a word, so the line structure of a text
//! survives the split; a chunk's length counts the characters of its words.
use vstd::prelude::*;
use crate::text::{chars_of, extend_chars, string_of};

verus! {

/// The budget of word characters that one message chunk holds.
pub const MESSAGE_CHUNK_SIZE: usize = 1500;

/// The words of `s`: its maximal runs of characters other than the space,
/// in order.
pub open spec fn words(s: Seq<char>) -> Seq<Seq<char>>
    decreases s.len(),
{
    if s.len() == 0 {
        Seq::empty()
    } else {
        let prev = words(s.drop_last());
        if s.last() == ' ' {
            prev
        } else if s.len() >= 2 && s[s.len() - 2] != ' ' {
            prev.drop_last().push(prev.last().push(s.last()))
        } else {
            prev.push(seq![s.last()])
        }
    }
}

/// The words of `ws` separated by single spaces.
pub open spec fn join(ws: Seq<Seq<char>>) -> Seq<char>
    decreases ws.len(),
{
    if ws.len() == 0 {
        Seq::empty()
    } else if ws.len() == 1 {
        ws[0]
    } else {
        join(ws.drop_last()) + seq![' '] + ws.last()
    }
}

/// `s` with leading and trailing spaces removed and each inner run of
/// spaces shortened to one space.
pub open spec fn normalize(s: Seq<char>) -> Seq<char>
    decreases s.len(),
{
    if s.len() == 0 {
        Seq::empty()
    } else {
        let prev = normalize(s.drop_last());
        if s.last() == ' ' {
            prev
        } else if s.len() >= 2 && s[s.len() - 2] == ' ' && prev.len() > 0 {
            prev + seq![' ', s.last()]
        } else {
            prev.push(s.last())
        }
    }
}

/// The length of a chunk: the characters of its words, the spaces that
/// join them not counted.
pub open spec fn weight(g: Seq<Seq<char>>) -> nat
    decreases g.len(),
{
    if g.len() == 0 {
        0
    } else {
        weight(g.drop_last()) + g.last().len()
    }
}

/// Greedy packing: each word joins the current chunk unless the chunk's
/// length would then exceed `max`, in which case it starts a new chunk.
pub open spec fn pack(ws: Seq<Seq<char>>, max: nat) -> Seq<Seq<Seq<char>>>
    decreases ws.len(),
{
    if ws.len() == 0 {
        Seq::empty()
    } else {
        let prev = pack(ws.drop_last(), max);
        let w = ws.last();
        if prev.len() > 0 && weight(prev.last()) + w.len() <= max {
            prev.drop_last().push(prev.last().push(w))
        } else {
            prev.push(seq![w])
        }
    }
}

/// The word groups of the chunks of `s`; a text without words gives one
/// empty chunk.
pub open spec fn chunk_groups(s: Seq<char>, max: nat) -> Seq<Seq<Seq<char>>> {
    let p = pack(words(s), max);
    if p.len() == 0 {
        seq![Seq::empty()]
    } else {
        p
    }
}

/// The chunks of `s` as texts.
pub open spec fn chunks_of(s: Seq<char>, max: nat) -> Seq<Seq<char>> {
    chunk_groups(s, max).map_values(|g: Seq<Seq<char>>| join(g))
}

/// The views of a list of character vectors.
pub open spec fn views(v: Seq<Vec<char>>) -> Seq<Seq<char>> {
    v.map_values(|c: Vec<char>| c@)
}

proof fn lemma_words_nonempty(s: Seq<char>)
    requires
        s.len() > 0,
        s.last() != ' ',
    ensures
        words(s).len() > 0,
{
    reveal_with_fuel(words, 2);
}

fn split_words(cs: &Vec<char>) -> (r: Vec<Vec<char>>)
    ensures
        views(r@) == words(cs@),
{
    let mut out: Vec<Vec<char>> = Vec::new();
    let mut i: usize = 0;
    while i < cs.len()
        invariant
            i <= cs@.len(),
            views(out@) == words(cs@.subrange(0, i as int)),
        decreases cs@.len() - i,
    {
        let c = cs[i];
        let ghost before = cs@.subrange(0, i as int);
        let ghost after = cs@.subrange(0, i as int + 1);
        assert(after.drop_last() =~= before);
        if c == ' ' {
        } else if i >= 1 && cs[i - 1] != ' ' {
            proof {
                lemma_words_nonempty(before);
            }
            let mut last = out.pop().unwrap();
            last.push(c);
            out.push(last);
            assert(views(out@) =~= words(after));
        } else {
            let mut w: Vec<char> = Vec::new();
            w.push(c);
            out.push(w);
            assert(views(out@) =~= words(after));
        }
        i += 1;
    }
    assert(cs@.subrange(0, cs@.len() as int) =~= cs@);
    out
}

/// Every chunk that packing forms holds at least one word.
pub proof fn lemma_pack_groups_nonempty(ws: Seq<Seq<char>>, max: nat)
    ensures
        forall|i: int| 0 <= i < pack(ws, max).len() ==> #[trigger] pack(ws, max)[i].len() > 0,
    decreases ws.len(),
{
    if ws.len() > 0 {
        let prev = pack(ws.drop_last(), max);
        let r = pack(ws, max);
        lemma_pack_groups_nonempty(ws.drop_last(), max);
        assert forall|i: int| 0 <= i < r.len() implies #[trigger] r[i].len() > 0 by {
            if i < prev.len() - 1 || (i == prev.len() - 1 && r.len() > prev.len()) {
                assert(r[i] == prev[i]);
            }
        }
    }
}

proof fn lemma_join_push(g: Seq<Seq<char>>, w: Seq<char>)
    requires
        g.len() > 0,
    ensures
        join(g.push(w)) == join(g) + seq![' '] + w,
{
    assert(g.push(w).drop_last() =~= g);
}

fn pack_words(ws: &Vec<Vec<char>>, max: usize) -> (r: Vec<Vec<char>>)
    ensures
        views(r@) == pack(views(ws@), max as nat).map_values(|g: Seq<Seq<char>>| join(g)),
{
    let ghost wv = views(ws@);
    let mut out: Vec<Vec<char>> = Vec::new();
    let mut weight_last: usize = 0;
    let mut j: usize = 0;
    while j < ws.len()
        invariant
            j <= ws@.len(),
            wv == views(ws@),
            views(out@) == pack(wv.subrange(0, j as int), max as nat).map_values(
                |g: Seq<Seq<char>>| join(g),
            ),
            out@.len() > 0 ==> weight_last == weight(
                pack(wv.subrange(0, j as int), max as nat).last(),
            ),
        decreases ws@.len() - j,
    {
        let ghost before = wv.subrange(0, j as int);
        let ghost after = wv.subrange(0, j as int + 1);
        let ghost p = pack(before, max as nat);
        let ghost old_out = out@;
        assert(after.drop_last() =~= before);
        assert(views(out@).len() == out@.len());
        assert(p.map_values(|g: Seq<Seq<char>>| join(g)).len() == p.len());
        let w = &ws[j];
        let wl = w.len();
        assert(wv[j as int] == w@);
        if out.len() > 0 && wl <= max && weight_last <= max - wl {
            proof {
                lemma_pack_groups_nonempty(before, max as nat);
                lemma_join_push(p.last(), w@);
                assert(p.last().push(w@).drop_last() =~= p.last());
            }
            let mut last = out.pop().unwrap();
            assert(last@ == views(old_out).last());
            assert(last@ == join(p.last()));
            last.push(' ');
            extend_chars(&mut last, w);
            assert(last@ =~= join(p.last().push(w@)));
            out.push(last);
            weight_last = weight_last + wl;
            assert(views(out@) =~= views(old_out).drop_last().push(last@));
            assert(views(out@) =~= pack(after, max as nat).map_values(|g: Seq<Seq<char>>| join(g)));
        } else {
            let mut fresh: Vec<char> = Vec::new();
            extend_chars(&mut fresh, w);
            out.push(fresh);
            weight_last = wl;
            proof {
                reveal_with_fuel(weight, 2);
                reveal_with_fuel(join, 2);
                assert(fresh@ =~= w@);
                assert(seq![w@].drop_last() =~= Seq::<Seq<char>>::empty());
            }
            assert(views(out@) =~= views(old_out).push(w@));
            assert(views(out@) =~= pack(after, max as nat).map_values(|g: Seq<Seq<char>>| join(g)));
        }
        j += 1;
    }
    assert(wv.subrange(0, ws@.len() as int) =~= wv);
    out
}

/// Splits `message` into chunks for consecutive messages: its words, in
/// order, packed greedily so that a chunk's word characters stay within
/// `chunk_size` unless a single word alone exceeds it.
pub fn chunk_message(message: &str, chunk_size: usize) -> (r: Vec<String>)
    ensures
        r@.map_values(|c: String| c@) == chunks_of(message@, chunk_size as nat),
{
    let cs = chars_of(message);
    let ws = split_words(&cs);
    let packed = pack_words(&ws, chunk_size);
    let ghost groups = chunk_groups(message@, chunk_size as nat);
    let ghost target = chunks_of(message@, chunk_size as nat);
    let mut out: Vec<String> = Vec::new();
    if packed.len() == 0 {
        out.push(String::new());
        proof {
            reveal_with_fuel(join, 1);
        }
        assert(out@.map_values(|c: String| c@) =~= target);
        return out;
    }
    assert(views(packed@).len() == packed@.len());
    assert(target =~= views(packed@));
    let mut i: usize = 0;
    while i < packed.len()
        invariant
            i <= packed@.len(),
            target == views(packed@),
            out@.map_values(|c: String| c@) == target.subrange(0, i as int),
        decreases packed@.len() - i,
    {
        let c = string_of(packed[i].as_slice());
        assert(c@ == target[i as int]);
        let ghost old_out = out@;
        out.push(c);
        assert(out@.map_values(|c: String| c@) =~= old_out.map_values(|c: String| c@).push(
            target[i as int],
        ));
        i += 1;
        assert(out@.map_values(|c: String| c@) =~= target.subrange(0, i as int));
    }
    assert(target.subrange(0, packed@.len() as int) =~= target);
    out
}

proof fn lemma_words_nonempty_each(s: Seq<char>)
    ensures
        forall|i: int| 0 <= i < words(s).len() ==> #[trigger] words(s)[i].len() > 0,
    decreases s.len(),
{
    if s.len() > 0 {
        let prev = words(s.drop_last());
        let r = words(s);
        lemma_words_nonempty_each(s.drop_last());
        assert forall|i: int| 0 <= i < r.len() implies #[trigger] r[i].len() > 0 by {
            if i < prev.len() - 1 || (i == prev.len() - 1 && r.len() > prev.len()) {
                assert(r[i] == prev[i]);
            }
        }
    }
}

proof fn lemma_join_len(ws: Seq<Seq<char>>)
    requires
        ws.len() > 0,
    ensures
        join(ws).len() >= ws.last().len(),
{
}

/// Joining the words of a text with single spaces normalizes its spaces.
pub proof fn lemma_join_words(s: Seq<char>)
    ensures
        join(words(s)) == normalize(s),
    decreases s.len(),
{
    if s.len() > 0 {
        let t = s.drop_last();
        let prev = words(t);
        lemma_join_words(t);
        lemma_words_nonempty_each(t);
        if s.last() == ' ' {
        } else if s.len() >= 2 && s[s.len() - 2] != ' ' {
            assert(t.last() == s[s.len() - 2]);
            lemma_words_nonempty(t);
            let g = prev.drop_last();
            if prev.len() == 1 {
                assert(prev.drop_last().push(prev.last().push(s.last())) =~= seq![
                    prev[0].push(s.last()),
                ]);
            } else {
                lemma_join_push(g, prev.last().push(s.last()));
                lemma_join_push(g, prev.last());
                assert(g.push(prev.last()) =~= prev);
            }
        } else {
            if prev.len() == 0 {
                assert(prev.push(seq![s.last()]) =~= seq![seq![s.last()]]);
            } else {
                lemma_join_push(prev, seq![s.last()]);
                lemma_join_len(prev);
                if s.len() == 1 {
                    assert(t.len() == 0);
                }
            }
        }
    }
}

proof fn lemma_pack_nonempty(ws: Seq<Seq<char>>, max: nat)
    ensures
        pack(ws, max).len() == 0 <==> ws.len() == 0,
{
}

proof fn lemma_pack_join(ws: Seq<Seq<char>>, max: nat)
    ensures
        join(pack(ws, max).map_values(|g: Seq<Seq<char>>| join(g))) == join(ws),
    decreases ws.len(),
{
    if ws.len() > 0 {
        let t = ws.drop_last();
        let w = ws.last();
        let p = pack(t, max);
        let mp = p.map_values(|g: Seq<Seq<char>>| join(g));
        let np = pack(ws, max);
        let mnp = np.map_values(|g: Seq<Seq<char>>| join(g));
        lemma_pack_join(t, max);
        lemma_pack_nonempty(t, max);
        lemma_pack_groups_nonempty(t, max);
        if p.len() > 0 && weight(p.last()) + w.len() <= max {
            lemma_join_push(p.last(), w);
            assert(mnp =~= mp.drop_last().push(mp.last() + seq![' '] + w));
            if p.len() == 1 {
                assert(join(mnp) == mp.last() + seq![' '] + w);
            } else {
                lemma_join_push(mp.drop_last(), mp.last() + seq![' '] + w);
                lemma_join_push(mp.drop_last(), mp.last());
                assert(mp.drop_last().push(mp.last()) =~= mp);
                assert(join(mnp) =~= join(mp) + seq![' '] + w);
            }
            assert(t.push(w) =~= ws);
            lemma_join_push(t, w);
        } else {
            reveal_with_fuel(join, 2);
            assert(mnp =~= mp.push(w));
            if p.len() == 0 {
                assert(ws.len() == 1);
            } else {
                lemma_join_push(mp, w);
                assert(t.push(w) =~= ws);
                lemma_join_push(t, w);
            }
        }
    }
}

/// Re-joining the chunks of a text with single spaces gives back the text
/// with only its runs of spaces normalized: no character is dropped or
/// duplicated.
pub proof fn lemma_chunks_rejoin(s: Seq<char>, max: nat)
    ensures
        join(chunks_of(s, max)) == normalize(s),
{
    lemma_join_words(s);
    lemma_pack_join(words(s), max);
    lemma_pack_nonempty(words(s), max);
    if words(s).len() == 0 {
        reveal_with_fuel(join, 2);
        assert(chunks_of(s, max) =~= seq![Seq::<char>::empty()]);
    }
}

/// The characters of `s` other than the space, in order.
pub open spec fn letters(s: Seq<char>) -> Seq<char>
    decreases s.len(),
{
    if s.len() == 0 {
        Seq::empty()
    } else if s.last() == ' ' {
        letters(s.drop_last())
    } else {
        letters(s.drop_last()).push(s.last())
    }
}

proof fn lemma_normalize_letters(s: Seq<char>)
    ensures
        letters(normalize(s)) == letters(s),
    decreases s.len(),
{
    if s.len() > 0 {
        let t = s.drop_last();
        let p = normalize(t);
        lemma_normalize_letters(t);
        let c = s.last();
        if c != ' ' {
            if s.len() >= 2 && s[s.len() - 2] == ' ' && p.len() > 0 {
                let q = p.push(' ');
                assert(p + seq![' ', c] =~= q.push(c));
                assert(q.push(c).drop_last() =~= q);
                assert(q.drop_last() =~= p);
                assert(q.last() == ' ');
                assert(letters(q) == letters(p));
                assert(letters(q.push(c)) == letters(q).push(c));
                assert(normalize(s) == q.push(c));
            } else {
                assert(p.push(c).drop_last() =~= p);
                assert(letters(p.push(c)) == letters(p).push(c));
                assert(normalize(s) == p.push(c));
            }
            assert(letters(s) == letters(t).push(c));
        } else {
            assert(normalize(s) == p);
            assert(letters(s) == letters(t));
        }
    }
}

/// The chunks of a text, put together, hold the text's characters other
/// than the space, each once and in order.
pub proof fn lemma_chunks_keep_letters(s: Seq<char>, max: nat)
    ensures
        letters(join(chunks_of(s, max))) == letters(s),
{
    lemma_chunks_rejoin(s, max);
    lemma_normalize_letters(s);
}

proof fn lemma_pack_keeps_long_words(ws: Seq<Seq<char>>, max: nat, k: int)
    requires
        0 <= k < ws.len(),
        ws[k].len() > max,
    ensures
        exists|i: int| 0 <= i < pack(ws, max).len() && #[trigger] pack(ws, max)[i] == seq![ws[k]],
    decreases ws.len(),
{
    let prev = pack(ws.drop_last(), max);
    let r = pack(ws, max);
    let w = ws.last();
    reveal_with_fuel(weight, 2);
    if k == ws.len() - 1 {
        assert(!(prev.len() > 0 && weight(prev.last()) + w.len() <= max));
        assert(r[r.len() - 1] == seq![ws[k]]);
    } else {
        assert(ws.drop_last()[k] == ws[k]);
        lemma_pack_keeps_long_words(ws.drop_last(), max, k);
        let i = choose|i: int| 0 <= i < prev.len() && #[trigger] prev[i] == seq![ws[k]];
        if i == prev.len() - 1 {
            assert(seq![ws[k]].drop_last() =~= Seq::<Seq<char>>::empty());
            assert(weight(prev.last()) == ws[k].len());
        }
        assert(r[i] == seq![ws[k]]);
    }
}

/// A word longer than the maximum is a chunk of its own, whole.
pub proof fn lemma_long_word_alone(s: Seq<char>, max: nat, k: int)
    requires
        0 <= k < words(s).len(),
        words(s)[k].len() > max,
    ensures
        exists|i: int|
            0 <= i < chunk_groups(s, max).len() && #[trigger] chunk_groups(s, max)[i] == seq![
                words(s)[k],
            ] && chunks_of(s, max)[i] == words(s)[k],
{
    lemma_pack_keeps_long_words(words(s), max, k);
    let i = choose|i: int|
        0 <= i < pack(words(s), max).len() && #[trigger] pack(words(s), max)[i] == seq![
            words(s)[k],
        ];
    assert(chunk_groups(s, max)[i] == seq![words(s)[k]]);
    assert(chunks_of(s, max)[i] == join(seq![words(s)[k]]));
}

proof fn lemma_pack_bound(ws: Seq<Seq<char>>, max: nat)
    ensures
        forall|i: int|
            0 <= i < pack(ws, max).len() ==> #[trigger] pack(ws, max)[i].len() == 1 || weight(
                pack(ws, max)[i],
            ) <= max,
    decreases ws.len(),
{
    if ws.len() > 0 {
        let prev = pack(ws.drop_last(), max);
        let r = pack(ws, max);
        lemma_pack_bound(ws.drop_last(), max);
        assert forall|i: int| 0 <= i < r.len() implies #[trigger] r[i].len() == 1 || weight(r[i])
            <= max by {
            if i < prev.len() - 1 || (i == prev.len() - 1 && r.len() > prev.len()) {
                assert(r[i] == prev[i]);
            } else {
                reveal_with_fuel(weight, 2);
                assert(prev.last().push(ws.last()).drop_last() =~= prev.last());
            }
        }
    }
}

/// The characters of a chunk: those of its words and one space between
/// each two.
pub proof fn lemma_chunk_text_len(g: Seq<Seq<char>>)
    requires
        g.len() > 0,
    ensures
        join(g).len() == weight(g) + g.len() - 1,
    decreases g.len(),
{
    if g.len() == 1 {
        reveal_with_fuel(weight, 2);
        assert(g.drop_last().len() == 0);
    } else {
        lemma_chunk_text_len(g.drop_last());
    }
}

/// No chunk is longer than the maximum, but for a chunk that holds a single
/// word which alone exceeds it.
pub proof fn lemma_chunk_size_bound(s: Seq<char>, max: nat)
    ensures
        forall|i: int|
            0 <= i < chunk_groups(s, max).len() ==> weight(#[trigger] chunk_groups(s, max)[i])
                <= max || chunk_groups(s, max)[i].len() == 1,
{
    lemma_pack_bound(words(s), max);
    if pack(words(s), max).len() == 0 {
        assert(weight(Seq::<Seq<char>>::empty()) == 0);
    }
}

} // verus!
