//! What is done to texts.

use vstd::prelude::*;

use crate::text::{
    has_prefix, is_char, is_space, lemma_position, lower, segments, split_first, split_last,
    text_lt, trimmed,
};

verus! {

/// Texts stand in the order of their first characters that differ, and a text before every
/// longer one that it begins.
pub proof fn texts_stand_in_order(a: Seq<char>, x: char, y: char, s: Seq<char>, t: Seq<char>)
    requires
        x < y,
    ensures
        text_lt(a + seq![x] + s, a + seq![y] + t),
        !text_lt(a + seq![y] + t, a + seq![x] + s),
        text_lt(a, a + seq![x] + s),
        !text_lt(a + seq![x] + s, a),
    decreases a.len(),
{
    let p = a + seq![x] + s;
    let q = a + seq![y] + t;
    if a.len() > 0 {
        let b = a.drop_first();
        texts_stand_in_order(b, x, y, s, t);
        assert(p.drop_first() =~= b + seq![x] + s);
        assert(q.drop_first() =~= b + seq![y] + t);
        assert(p[0] == a[0] && q[0] == a[0]);
    } else {
        assert(p[0] == x && q[0] == y);
    }
}

/// A text begins with another exactly if it is that text and something more.
pub proof fn prefixes_are_what_a_text_begins_with(p: Seq<char>, s: Seq<char>)
    ensures
        has_prefix(p + s, p),
        has_prefix(s, p) ==> s == p + s.skip(p.len() as int),
{
    assert((p + s).take(p.len() as int) =~= p);
    if has_prefix(s, p) {
        assert(s =~= p + s.skip(p.len() as int));
    }
}

/// White space around a text is taken off, and nothing else is.
pub proof fn trimming_takes_off_white_space(s: Seq<char>, c: char)
    requires
        is_space(c),
        s.len() > 0,
        !is_space(s[0]),
        !is_space(s.last()),
    ensures
        trimmed(s) == s,
        trimmed(seq![c] + s) == s,
        trimmed(s.push(c)) == s,
        is_space(' '),
{
    reveal_with_fuel(crate::text::trim_start, 2);
    reveal_with_fuel(crate::text::trim_end, 2);
    assert((seq![c] + s).drop_first() =~= s);
    assert(s.push(c).drop_last() =~= s);
    assert(s.push(c)[0] == s[0]);
}

/// A text is cut at the first of a character, or at the last.
pub proof fn texts_are_cut_in_two(a: Seq<char>, b: Seq<char>, c: char)
    ensures
        (forall|i: int| 0 <= i < a.len() ==> #[trigger] a[i] != c) ==> split_first(
            a + seq![c] + b,
            c,
        ) == Some((a, b)),
        (forall|i: int| 0 <= i < b.len() ==> #[trigger] b[i] != c) ==> split_last(
            a + seq![c] + b,
            c,
        ) == Some((a, b)),
{
    let s = a + seq![c] + b;
    assert(s[a.len() as int] == c);
    assert(s.take(a.len() as int) =~= a);
    assert(s.skip(a.len() as int + 1) =~= b);
    if forall|i: int| 0 <= i < a.len() ==> #[trigger] a[i] != c {
        assert forall|j: int| 0 <= j < a.len() implies !is_char(c)(#[trigger] s[j]) by {
            assert(s[j] == a[j]);
        }
        lemma_position(s, is_char(c), a.len() as int);
    }
    if forall|i: int| 0 <= i < b.len() ==> #[trigger] b[i] != c {
        lemma_last(a, b, c);
    }
}

proof fn lemma_last(a: Seq<char>, b: Seq<char>, c: char)
    requires
        forall|i: int| 0 <= i < b.len() ==> #[trigger] b[i] != c,
    ensures
        crate::text::last_position(a + seq![c] + b, c) == a.len(),
    decreases b.len(),
{
    let s = a + seq![c] + b;
    if b.len() > 0 {
        let d = b.drop_last();
        assert forall|i: int| 0 <= i < d.len() implies #[trigger] d[i] != c by {
            assert(d[i] == b[i]);
        }
        lemma_last(a, d, c);
        assert(s.drop_last() =~= a + seq![c] + d);
        assert(s.last() == b.last());
        assert(b[b.len() - 1] != c);
    } else {
        assert(s.last() == c);
    }
}

/// The parts of a path are what stands between its slashes.
pub proof fn paths_are_cut_at_slashes(parts: Seq<Seq<char>>)
    requires
        forall|i: int|
            0 <= i < parts.len() ==> (#[trigger] parts[i]).len() > 0 && forall|j: int|
                0 <= j < parts[i].len() ==> #[trigger] parts[i][j] != '/',
    ensures
        segments(slashed(parts), '/') == parts,
    decreases parts.len(),
{
    let s = slashed(parts);
    if parts.len() == 0 {
        assert(segments(s, '/') =~= parts);
    } else {
        let first = parts[0];
        let rest = parts.drop_first();
        assert forall|i: int| 0 <= i < rest.len() implies (#[trigger] rest[i]).len() > 0
            && forall|j: int| 0 <= j < rest[i].len() ==> #[trigger] rest[i][j] != '/' by {
            assert(rest[i] == parts[i + 1]);
        }
        paths_are_cut_at_slashes(rest);
        let tail = slashed(rest);
        assert(s[0] == '/');
        lemma_position(s, is_char('/'), 0);
        assert(s.skip(1) =~= first + tail);
        assert(s.take(0).len() == 0);
        let t = first + tail;
        assert forall|j: int| 0 <= j < first.len() implies !is_char('/')(#[trigger] t[j]) by {
            assert(t[j] == first[j]);
            assert(parts[0][j] != '/');
        }
        if rest.len() == 0 {
            assert(t =~= first);
            lemma_position(t, is_char('/'), t.len() as int);
            assert(segments(t, '/') =~= seq![first]);
        } else {
            assert(tail[0] == '/');
            assert(t[first.len() as int] == '/');
            lemma_position(t, is_char('/'), first.len() as int);
            assert(t.take(first.len() as int) =~= first);
            let u = t.skip(first.len() as int + 1);
            lemma_position(tail, is_char('/'), 0);
            assert(tail.skip(1) =~= u);
            assert(tail.take(0).len() == 0);
            assert(segments(tail, '/') == segments(u, '/'));
            assert(segments(t, '/') == seq![first] + segments(u, '/'));
        }
        assert(segments(s, '/') == segments(t, '/'));
        assert(segments(s, '/') =~= parts);
    }
}

/// Every part behind a slash.
pub open spec fn slashed(parts: Seq<Seq<char>>) -> Seq<char>
    decreases parts.len(),
{
    if parts.len() == 0 {
        Seq::empty()
    } else {
        seq!['/'] + parts[0] + slashed(parts.drop_first())
    }
}

/// Large letters become the small ones of the same place in the alphabet, and nothing else
/// changes.
pub proof fn letters_have_their_lower_case(c: char)
    ensures
        'A' <= c && c <= 'Z' ==> lower(c) as int - 'a' as int == c as int - 'A' as int,
        c < 'A' || c > 'Z' ==> lower(c) == c,
{
}

} // verus!
