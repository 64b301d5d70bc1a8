//! The segmenter: cuts the extraction buffer at newlines into ordered lines,
//! counts every line (blank ones included) for progress accounting, and keeps
//! only the lines that still hold text after trimming.

use vstd::prelude::*;
use vstd::string::StrSliceExecFns;

verus! {

/// One translatable unit: a non-blank line of the extraction buffer, paired
/// with its 0-based position among all lines of the buffer.
pub struct Segment {
    pub index: usize,
    pub text: String,
}

/// The characters with the Unicode white-space property: what trimming
/// removes from the ends of a line.
pub open spec fn is_space_char(c: char) -> bool {
    c == ' ' || c == '\t' || c == '\n' || c == '\r' || c == '\u{0B}' || c == '\u{0C}' || c
        == '\u{85}' || c == '\u{A0}' || c == '\u{1680}' || c == '\u{2000}' || c == '\u{2001}' || c
        == '\u{2002}' || c == '\u{2003}' || c == '\u{2004}' || c == '\u{2005}' || c == '\u{2006}'
        || c == '\u{2007}' || c == '\u{2008}' || c == '\u{2009}' || c == '\u{200A}' || c
        == '\u{2028}' || c == '\u{2029}' || c == '\u{202F}' || c == '\u{205F}' || c == '\u{3000}'
}

/// A line is blank when trimming would leave nothing of it.
pub open spec fn is_blank(s: Seq<char>) -> bool {
    forall|i: int| 0 <= i < s.len() ==> is_space_char(s[i])
}

/// The buffer cut at every newline, with the separator semantics of a raw
/// split: always at least one piece, and a piece after every newline.
pub open spec fn split_pieces(s: Seq<char>) -> Seq<Seq<char>>
    decreases s.len(),
{
    if s.len() == 0 {
        seq![Seq::<char>::empty()]
    } else if s[0] == '\n' {
        seq![Seq::<char>::empty()] + split_pieces(s.drop_first())
    } else {
        let rest = split_pieces(s.drop_first());
        seq![seq![s[0]] + rest[0]] + rest.drop_first()
    }
}

/// The lines of the buffer: the newline-delimited pieces, where a trailing
/// newline terminates the last line rather than opening an empty one.
pub open spec fn split_lines(s: Seq<char>) -> Seq<Seq<char>> {
    let pieces = split_pieces(s);
    if pieces.last().len() == 0 {
        pieces.drop_last()
    } else {
        pieces
    }
}

/// The lines that are forwarded to the translation pipeline: each non-blank
/// line with its position among all lines.
pub open spec fn kept_segments(lines: Seq<Seq<char>>) -> Seq<(int, Seq<char>)>
    decreases lines.len(),
{
    if lines.len() == 0 {
        Seq::<(int, Seq<char>)>::empty()
    } else {
        kept_segments(lines.drop_last()) + if is_blank(lines.last()) {
            Seq::<(int, Seq<char>)>::empty()
        } else {
            seq![(lines.len() - 1, lines.last())]
        }
    }
}

/// The positions and texts that a vector of segments carries.
pub open spec fn seg_views(ss: Seq<Segment>) -> Seq<(int, Seq<char>)> {
    ss.map_values(|s: Segment| (s.index as int, s.text@))
}

proof fn lemma_split_pieces_nonempty(s: Seq<char>)
    ensures
        split_pieces(s).len() >= 1,
    decreases s.len(),
{
    if s.len() > 0 {
        lemma_split_pieces_nonempty(s.drop_first());
    }
}

/// Appending one character extends the last piece, or — for a newline —
/// closes it and opens an empty one.
proof fn lemma_split_push(s: Seq<char>, c: char)
    ensures
        c == '\n' ==> split_pieces(s.push(c)) == split_pieces(s).push(Seq::<char>::empty()),
        c != '\n' ==> split_pieces(s.push(c)) == split_pieces(s).update(
            split_pieces(s).len() - 1,
            split_pieces(s).last().push(c),
        ),
    decreases s.len(),
{
    lemma_split_pieces_nonempty(s);
    if s.len() == 0 {
        assert(s.push(c).drop_first() =~= Seq::<char>::empty());
        assert(s.push(c).len() == 1);
        assert(s.push(c)[0] == c);
        if c == '\n' {
            assert(split_pieces(s.push(c)) == seq![Seq::<char>::empty()] + split_pieces(
                Seq::<char>::empty(),
            ));
            assert(split_pieces(s.push(c)) =~~= split_pieces(s).push(Seq::<char>::empty()));
        } else {
            assert(seq![c] + split_pieces(Seq::<char>::empty())[0] =~= seq![c]);
            assert(split_pieces(s.push(c)) =~~= split_pieces(s).update(
                0,
                split_pieces(s).last().push(c),
            ));
        }
    } else {
        let t = s.drop_first();
        lemma_split_push(t, c);
        lemma_split_pieces_nonempty(t);
        assert(s.push(c).drop_first() =~= t.push(c));
        assert(s.push(c)[0] == s[0]);
        let rest = split_pieces(t);
        let rest2 = split_pieces(t.push(c));
        if s[0] == '\n' {
            if c == '\n' {
                assert(split_pieces(s.push(c)) =~~= split_pieces(s).push(Seq::<char>::empty()));
            } else {
                assert(split_pieces(s).last() == rest.last());
                assert(split_pieces(s.push(c)) =~~= split_pieces(s).update(
                    split_pieces(s).len() - 1,
                    split_pieces(s).last().push(c),
                ));
            }
        } else {
            if c == '\n' {
                assert(rest2 == rest.push(Seq::<char>::empty()));
                assert(rest2[0] == rest[0]);
                assert(rest2.drop_first() =~~= rest.drop_first().push(Seq::<char>::empty()));
                assert(split_pieces(s.push(c)) =~~= split_pieces(s).push(Seq::<char>::empty()));
            } else {
                assert(rest2 == rest.update(rest.len() - 1, rest.last().push(c)));
                if rest.len() == 1 {
                    assert(rest2[0] == rest[0].push(c));
                    assert(rest2.drop_first() =~~= rest.drop_first());
                    assert(split_pieces(s) == seq![seq![s[0]] + rest[0]] + rest.drop_first());
                    assert(split_pieces(s).len() == 1);
                    assert(split_pieces(s).last() == seq![s[0]] + rest[0]);
                    assert(seq![s[0]] + rest[0].push(c) =~= (seq![s[0]] + rest[0]).push(c));
                    assert(split_pieces(s.push(c)) =~~= split_pieces(s).update(
                        split_pieces(s).len() - 1,
                        split_pieces(s).last().push(c),
                    ));
                } else {
                    assert(rest2[0] == rest[0]);
                    assert(rest2.drop_first() =~~= rest.drop_first().update(
                        rest.len() - 2,
                        rest.last().push(c),
                    ));
                    assert(split_pieces(s).last() == rest.last());
                    assert(split_pieces(s.push(c)) =~~= split_pieces(s).update(
                        split_pieces(s).len() - 1,
                        split_pieces(s).last().push(c),
                    ));
                }
            }
        }
    }
}

proof fn lemma_blank_push(s: Seq<char>, c: char)
    ensures
        is_blank(s.push(c)) == (is_blank(s) && is_space_char(c)),
{
    if is_blank(s) && is_space_char(c) {
        assert forall|i: int| 0 <= i < s.push(c).len() implies is_space_char(s.push(c)[i]) by {
            if i < s.len() {
                assert(s.push(c)[i] == s[i]);
            }
        }
    } else if !is_blank(s) {
        let i = choose|i: int| 0 <= i < s.len() && !is_space_char(s[i]);
        assert(s.push(c)[i] == s[i]);
        assert(!is_blank(s.push(c)));
    } else {
        assert(s.push(c)[s.len() as int] == c);
        assert(!is_blank(s.push(c)));
    }
}

/// Whether `c` has the Unicode white-space property, on the executable side.
fn is_space(c: char) -> (r: bool)
    ensures
        r == is_space_char(c),
{
    c == ' ' || c == '\t' || c == '\n' || c == '\r' || c == '\u{0B}' || c == '\u{0C}' || c
        == '\u{85}' || c == '\u{A0}' || c == '\u{1680}' || c == '\u{2000}' || c == '\u{2001}' || c
        == '\u{2002}' || c == '\u{2003}' || c == '\u{2004}' || c == '\u{2005}' || c == '\u{2006}'
        || c == '\u{2007}' || c == '\u{2008}' || c == '\u{2009}' || c == '\u{200A}' || c
        == '\u{2028}' || c == '\u{2029}' || c == '\u{202F}' || c == '\u{205F}' || c == '\u{3000}'
}

/// Splits the extraction buffer into lines and returns the non-blank ones,
/// each with its position, together with the count of all lines (blank ones
/// included), which the progress report uses as its denominator.
#[verifier::loop_isolation(false)]
pub fn segment_buffer(buffer: &str) -> (r: (Vec<Segment>, usize))
    ensures
        r.1 == split_lines(buffer@).len(),
        seg_views(r.0@) == kept_segments(split_lines(buffer@)),
{
    let len = buffer.unicode_len();
    let mut segs: Vec<Segment> = Vec::new();
    let mut closed: usize = 0;
    let mut start: usize = 0;
    let mut has_text: bool = false;
    let mut i: usize = 0;
    proof {
        assert(buffer@.take(0) =~= Seq::<char>::empty());
        assert(buffer@.subrange(0, 0) =~= Seq::<char>::empty());
        assert(seg_views(segs@) =~~= kept_segments(
            split_pieces(buffer@.take(0)).drop_last(),
        ));
    }
    while i < len
        invariant
            i <= len,
            start <= i,
            closed <= start,
            split_pieces(buffer@.take(i as int)).len() == closed + 1,
            split_pieces(buffer@.take(i as int)).last() == buffer@.subrange(
                start as int,
                i as int,
            ),
            has_text == !is_blank(buffer@.subrange(start as int, i as int)),
            seg_views(segs@) == kept_segments(split_pieces(buffer@.take(i as int)).drop_last()),
        decreases len - i,
    {
        let ghost prefix = buffer@.take(i as int);
        let ghost pieces = split_pieces(prefix);
        let ghost cur = buffer@.subrange(start as int, i as int);
        let c = buffer.get_char(i);
        proof {
            assert(buffer@.take(i + 1) =~= prefix.push(buffer@[i as int]));
            lemma_split_push(prefix, buffer@[i as int]);
            lemma_blank_push(cur, buffer@[i as int]);
        }
        if c == '\n' {
            proof {
                assert(split_pieces(buffer@.take(i + 1)).drop_last() =~~= pieces);
                assert(buffer@.subrange(start as int, i + 1).drop_last() =~= cur);
            }
            if has_text {
                let text = buffer.substring_char(start, i).to_owned();
                segs.push(Segment { index: closed, text });
                proof {
                    assert(seg_views(segs@) =~~= kept_segments(pieces.drop_last()).push(
                        (closed as int, cur),
                    ));
                    assert(kept_segments(pieces) == kept_segments(pieces.drop_last()) + seq![
                        (pieces.len() - 1, pieces.last()),
                    ]);
                    assert(seg_views(segs@) =~~= kept_segments(pieces));
                }
            } else {
                proof {
                    assert(kept_segments(pieces) == kept_segments(pieces.drop_last()));
                }
            }
            closed = closed + 1;
            start = i + 1;
            has_text = false;
            proof {
                assert(buffer@.subrange(start as int, i + 1) =~= Seq::<char>::empty());
            }
        } else {
            if !is_space(c) {
                has_text = true;
            }
            proof {
                let pieces2 = split_pieces(buffer@.take(i + 1));
                assert(pieces2.drop_last() =~~= pieces.drop_last());
                assert(pieces2.last() == pieces.last().push(buffer@[i as int]));
                assert(buffer@.subrange(start as int, i + 1) =~= cur.push(buffer@[i as int]));
            }
        }
        i = i + 1;
    }
    proof {
        assert(buffer@.take(len as int) =~= buffer@);
    }
    if start < len {
        let ghost pieces = split_pieces(buffer@);
        proof {
            assert(pieces.last().len() == len - start);
            assert(split_lines(buffer@) == pieces);
        }
        if has_text {
            let text = buffer.substring_char(start, len).to_owned();
            segs.push(Segment { index: closed, text });
            proof {
                assert(kept_segments(pieces) == kept_segments(pieces.drop_last()) + seq![
                    (pieces.len() - 1, pieces.last()),
                ]);
                assert(seg_views(segs@) =~~= kept_segments(pieces));
            }
        } else {
            proof {
                assert(kept_segments(pieces) == kept_segments(pieces.drop_last()));
            }
        }
        (segs, closed + 1)
    } else {
        proof {
            let pieces = split_pieces(buffer@);
            assert(pieces.last().len() == 0);
            assert(split_lines(buffer@) == pieces.drop_last());
        }
        (segs, closed)
    }
}

} // verus!
