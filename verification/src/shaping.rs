//! Splitting text into lines at explicit line breaks: the part of
//! shaping that no wrap width influences, and the round trip between
//! splitting a text and joining its lines again.

use crate::text_layout::join_texts;
use vstd::prelude::*;

verus! {

/// The text split at its line breaks: the segments between newline
/// characters, in order. A text without newlines is a single segment;
/// every newline opens a further one.
pub open spec fn split_lines(s: Seq<char>) -> Seq<Seq<char>>
    decreases s.len(),
{
    if s.len() == 0 {
        seq![Seq::<char>::empty()]
    } else if s[0] == '\n' {
        seq![Seq::<char>::empty()] + split_lines(s.drop_first())
    } else {
        let rest = split_lines(s.drop_first());
        seq![seq![s[0]] + rest[0]] + rest.drop_first()
    }
}

proof fn lemma_join_cons(a: Seq<char>, ts: Seq<Seq<char>>)
    ensures
        ts.len() == 0 ==> join_texts(seq![a] + ts) == a,
        ts.len() > 0 ==> join_texts(seq![a] + ts) == a + seq!['\n'] + join_texts(ts),
    decreases ts.len(),
{
    let whole = seq![a] + ts;
    if ts.len() == 0 {
        assert(whole =~= seq![a]);
        assert(join_texts(seq![a]) == a);
    } else {
        assert(whole.len() >= 2);
        assert(whole.drop_last() =~= seq![a] + ts.drop_last());
        assert(whole.last() == ts.last());
        lemma_join_cons(a, ts.drop_last());
        if ts.len() == 1 {
            assert(join_texts(whole) == a + seq!['\n'] + ts[0]);
            assert(join_texts(ts) == ts[0]);
        } else {
            assert(join_texts(whole) == (a + seq!['\n'] + join_texts(ts.drop_last())) + seq!['\n']
                + ts.last());
            assert(join_texts(ts) == join_texts(ts.drop_last()) + seq!['\n'] + ts.last());
            assert((a + seq!['\n'] + join_texts(ts.drop_last())) + seq!['\n'] + ts.last() =~= a
                + seq!['\n'] + (join_texts(ts.drop_last()) + seq!['\n'] + ts.last()));
        }
    }
}

/// Splitting text at its line breaks and joining the segments with one
/// separator per boundary gives the text back: a layout whose shaper
/// breaks only at line breaks reports its text unchanged.
pub proof fn lemma_text_round_trip(s: Seq<char>)
    ensures
        split_lines(s).len() >= 1,
        join_texts(split_lines(s)) == s,
    decreases s.len(),
{
    if s.len() == 0 {
        assert(join_texts(split_lines(s)) =~= s);
    } else if s[0] == '\n' {
        lemma_text_round_trip(s.drop_first());
        lemma_join_cons(Seq::<char>::empty(), split_lines(s.drop_first()));
        assert(Seq::<char>::empty() + seq!['\n'] + join_texts(split_lines(s.drop_first())) =~= s);
    } else {
        lemma_text_round_trip(s.drop_first());
        let rest = split_lines(s.drop_first());
        lemma_join_cons(seq![s[0]] + rest[0], rest.drop_first());
        if rest.len() == 1 {
            assert(join_texts(rest) == rest[0]);
            assert(join_texts(split_lines(s)) == seq![s[0]] + rest[0]);
            assert(seq![s[0]] + rest[0] =~= seq![s[0]] + s.drop_first());
            assert(seq![s[0]] + s.drop_first() =~= s);
        } else {
            assert(rest =~= seq![rest[0]] + rest.drop_first());
            lemma_join_cons(rest[0], rest.drop_first());
            assert(join_texts(rest) == rest[0] + seq!['\n'] + join_texts(rest.drop_first()));
            assert(join_texts(split_lines(s)) == (seq![s[0]] + rest[0]) + seq!['\n'] + join_texts(
                rest.drop_first(),
            ));
            assert((seq![s[0]] + rest[0]) + seq!['\n'] + join_texts(rest.drop_first()) =~= seq![
                s[0],
            ] + (rest[0] + seq!['\n'] + join_texts(rest.drop_first())));
            assert(seq![s[0]] + join_texts(rest) =~= s);
        }
    }
}

proof fn lemma_split_prefix(s: Seq<char>, i: int)
    requires
        0 <= i <= s.len(),
        forall|j: int| 0 <= j < i ==> s[j] != '\n',
    ensures
        i < s.len() && s[i] == '\n' ==> split_lines(s) == seq![s.take(i)] + split_lines(
            s.skip(i + 1),
        ),
        i == s.len() ==> split_lines(s) == seq![s],
    decreases i,
{
    if i == 0 {
        if 0 < s.len() && s[0] == '\n' {
            assert(s.take(0) =~= Seq::<char>::empty());
            assert(s.skip(1) =~= s.drop_first());
        } else if s.len() == 0 {
            assert(s =~= Seq::<char>::empty());
            assert(split_lines(s) =~= seq![s]);
        }
    } else {
        let sd = s.drop_first();
        assert(s[0] != '\n');
        assert forall|j: int| 0 <= j < i - 1 implies sd[j] != '\n' by {
            assert(sd[j] == s[j + 1]);
        }
        lemma_split_prefix(sd, i - 1);
        let rest = split_lines(sd);
        if i < s.len() && s[i] == '\n' {
            assert(sd[i - 1] == s[i]);
            assert(rest == seq![sd.take(i - 1)] + split_lines(sd.skip(i)));
            assert(rest[0] == sd.take(i - 1));
            assert(rest.drop_first() =~= split_lines(sd.skip(i)));
            assert(sd.skip(i) =~= s.skip(i + 1));
            assert(seq![s[0]] + sd.take(i - 1) =~= s.take(i));
            assert(split_lines(s) =~= seq![s.take(i)] + split_lines(s.skip(i + 1)));
        } else if i == s.len() {
            assert(rest == seq![sd]);
            assert(rest[0] == sd);
            assert(rest.drop_first() =~= Seq::<Seq<char>>::empty());
            assert(seq![s[0]] + sd =~= s);
            assert(split_lines(s) =~= seq![s]);
        }
    }
}

/// Splits text into its lines at newline characters: what a shaper does
/// when no wrap width forces further breaks.
#[verifier::loop_isolation(false)]
pub fn split_text_lines(text: &String) -> (r: Vec<String>)
    ensures
        r@.map_values(|t: String| t@) == split_lines(text@),
        r@.len() >= 1,
{
    let len = text.as_str().unicode_len();
    let mut out: Vec<String> = Vec::new();
    let mut start: usize = 0;
    let mut i: usize = 0;
    proof {
        assert(text@.skip(0) =~= text@);
        assert(out@.map_values(|t: String| t@) =~= Seq::<Seq<char>>::empty());
    }
    while i < len
        invariant
            start <= i <= len,
            forall|j: int| start <= j < i ==> text@[j] != '\n',
            split_lines(text@) == out@.map_values(|t: String| t@) + split_lines(
                text@.skip(start as int),
            ),
        decreases len - i,
    {
        let c = text.as_str().get_char(i);
        if c == '\n' {
            let ghost out_before = out@;
            let seg = text.as_str().substring_char(start, i).to_owned();
            out.push(seg);
            proof {
                let tail = text@.skip(start as int);
                assert forall|j: int| 0 <= j < i - start implies tail[j] != '\n' by {
                    assert(tail[j] == text@[j + start]);
                }
                assert(tail[i - start] == text@[i as int]);
                lemma_split_prefix(tail, i - start);
                assert(tail.take(i - start) =~= text@.subrange(start as int, i as int));
                assert(tail.skip(i - start + 1) =~= text@.skip(i as int + 1));
                assert(out@.map_values(|t: String| t@) =~= out_before.map_values(|t: String| t@)
                    + seq![text@.subrange(start as int, i as int)]);
                assert(out@.map_values(|t: String| t@) + split_lines(text@.skip(i as int + 1)) =~= (
                out_before.map_values(|t: String| t@) + (seq![tail.take(i - start)] + split_lines(
                    tail.skip(i - start + 1),
                ))));
            }
            start = i + 1;
        }
        i = i + 1;
    }
    let ghost out_before = out@;
    let seg = text.as_str().substring_char(start, len).to_owned();
    out.push(seg);
    proof {
        let tail = text@.skip(start as int);
        lemma_split_prefix(tail, len - start);
        assert(tail =~= text@.subrange(start as int, len as int));
        assert(out@.map_values(|t: String| t@) =~= out_before.map_values(|t: String| t@) + seq![
            tail,
        ]);
        assert(out@.map_values(|t: String| t@) =~= split_lines(text@));
    }
    out
}

} // verus!
