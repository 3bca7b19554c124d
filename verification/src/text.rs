//! Splitting a log payload into display lines.
//!
//! A multi-line payload becomes one display line per text line.  Lines are
//! separated by a line feed or by a carriage return immediately followed by
//! a line feed; a final line ending opens no further, empty line.

use vstd::prelude::*;

verus! {

/// Removes the carriage return a line piece may carry just before its line
/// feed.
pub open spec fn strip_cr(u: Seq<char>) -> Seq<char> {
    if u.len() > 0 && u.last() == '\r' {
        u.drop_last()
    } else {
        u
    }
}

/// The lines of a text, in order.
pub open spec fn line_split(s: Seq<char>) -> Seq<Seq<char>>
    decreases s.len(),
{
    if s.len() == 0 {
        Seq::empty()
    } else if s.len() >= 2 && s[0] == '\r' && s[1] == '\n' {
        seq![Seq::<char>::empty()] + line_split(s.skip(2))
    } else if s[0] == '\n' {
        seq![Seq::<char>::empty()] + line_split(s.skip(1))
    } else {
        let rest = line_split(s.skip(1));
        if rest.len() == 0 {
            seq![seq![s[0]]]
        } else {
            seq![seq![s[0]] + rest[0]] + rest.skip(1)
        }
    }
}

/// A text without a line feed is a single line, kept as it is.
pub proof fn lemma_line_split_no_newline(t: Seq<char>)
    requires
        t.len() > 0,
        forall|j: int| 0 <= j < t.len() ==> t[j] != '\n',
    ensures
        line_split(t) =~~= seq![t],
    decreases t.len(),
{
    assert(t[0] != '\n');
    if t.len() >= 2 {
        assert(t[1] != '\n');
    }
    if t.len() == 1 {
        assert(t.skip(1) =~= Seq::<char>::empty());
        assert(line_split(t.skip(1)) =~= Seq::<Seq<char>>::empty());
        assert(t =~= seq![t[0]]);
    } else {
        lemma_line_split_no_newline(t.skip(1));
        let rest = line_split(t.skip(1));
        assert(rest =~~= seq![t.skip(1)]);
        assert(rest.len() == 1);
        assert(seq![t[0]] + rest[0] =~= t);
        assert(rest.skip(1) =~= Seq::<Seq<char>>::empty());
    }
}

/// Up to its first line feed, a text splits into the piece before the
/// terminator (with a carriage return stripped) followed by the lines of
/// what comes after.
pub proof fn lemma_line_split_first(t: Seq<char>, k: int)
    requires
        0 <= k < t.len(),
        t[k] == '\n',
        forall|j: int| 0 <= j < k ==> t[j] != '\n',
    ensures
        line_split(t) =~~= seq![strip_cr(t.take(k))] + line_split(t.skip(k + 1)),
    decreases k,
{
    if k == 0 {
        assert(t.take(0) =~= Seq::<char>::empty());
        assert(strip_cr(t.take(0)) =~= Seq::<char>::empty());
    } else if k == 1 && t[0] == '\r' {
        assert(t.len() >= 2 && t[0] == '\r' && t[1] == '\n');
        assert(line_split(t) == seq![Seq::<char>::empty()] + line_split(t.skip(2)));
        assert(t.take(1) =~= seq!['\r']);
        assert(t.take(1).last() == '\r');
        assert(strip_cr(t.take(1)) =~= Seq::<char>::empty());
    } else {
        // k >= 1 and the text does not open with a full terminator, so the
        // definition prepends t[0] to the first line of the tail.
        assert(t[0] != '\n');
        assert(!(t.len() >= 2 && t[0] == '\r' && t[1] == '\n')) by {
            if t.len() >= 2 && t[1] == '\n' {
                assert(k <= 1);
            }
        }
        let tp = t.skip(1);
        assert(tp[k - 1] == t[k]);
        assert(forall|j: int| 0 <= j < k - 1 ==> tp[j] == t[j + 1] && t[j + 1] != '\n');
        lemma_line_split_first(tp, k - 1);
        let rest = line_split(tp);
        assert(rest =~~= seq![strip_cr(tp.take(k - 1))] + line_split(tp.skip(k)));
        assert(rest.len() >= 1);
        assert(rest[0] == strip_cr(tp.take(k - 1)));
        assert(rest.skip(1) =~~= line_split(tp.skip(k)));
        assert(tp.skip(k) =~= t.skip(k + 1));
        // The stripped first piece of t is t[0] prepended to the stripped
        // first piece of the tail.
        assert(t.take(k) =~= seq![t[0]] + tp.take(k - 1));
        if t[k - 1] == '\r' {
            assert(t.take(k).last() == '\r');
            if k == 1 {
                assert(t[0] == '\r');
                assert(false);
            }
            assert(tp.take(k - 1).last() == t[k - 1]);
            assert(strip_cr(t.take(k)) =~= seq![t[0]] + strip_cr(tp.take(k - 1)));
        } else {
            assert(t.take(k).last() == t[k - 1]);
            if tp.take(k - 1).len() > 0 {
                assert(tp.take(k - 1).last() == t[k - 1]);
            }
            assert(strip_cr(t.take(k)) =~= seq![t[0]] + strip_cr(tp.take(k - 1)));
        }
        assert(line_split(t) == seq![seq![t[0]] + rest[0]] + rest.skip(1));
        assert(seq![t[0]] + rest[0] =~= strip_cr(t.take(k)));
    }
}

/// Splits a payload into its display lines.
pub fn split_lines(text: &str) -> (out: Vec<String>)
    ensures
        out@.len() == line_split(text@).len(),
        forall|i: int| 0 <= i < out@.len() ==> (#[trigger] out@[i])@ == line_split(text@)[i],
{
    let n = text.unicode_len();
    let mut out: Vec<String> = Vec::new();
    let mut start: usize = 0;
    let mut i: usize = 0;
    proof {
        assert(out@.map_values(|l: String| l@) =~= Seq::<Seq<char>>::empty());
        assert(text@.skip(0) =~= text@);
    }
    while i < n
        invariant
            n == text@.len(),
            0 <= start <= i <= n,
            forall|j: int| start <= j < i ==> text@[j] != '\n',
            line_split(text@) =~~= out@.map_values(|l: String| l@) + line_split(
                text@.skip(start as int),
            ),
        decreases n - i,
    {
        let c = text.get_char(i);
        if c == '\n' {
            let end = if i > start && text.get_char(i - 1) == '\r' {
                i - 1
            } else {
                i
            };
            let piece = text.substring_char(start, end);
            proof {
                let t = text@.skip(start as int);
                let k = (i - start) as int;
                lemma_line_split_first(t, k);
                assert(t.skip(k + 1) =~= text@.skip(i + 1 as int));
                if i > start && text@[i - 1] == '\r' {
                    assert(t.take(k).last() == '\r');
                    assert(strip_cr(t.take(k)) =~= text@.subrange(start as int, i - 1));
                } else {
                    if t.take(k).len() > 0 {
                        assert(t.take(k).last() == text@[i - 1]);
                    }
                    assert(strip_cr(t.take(k)) =~= text@.subrange(start as int, i as int));
                }
                assert(piece@ == strip_cr(t.take(k)));
            }
            let line = piece.to_owned();
            let ghost prev = out@;
            out.push(line);
            proof {
                assert(out@.map_values(|l: String| l@) =~= prev.map_values(
                    |l: String| l@,
                ).push(piece@));
            }
            start = i + 1;
        }
        i = i + 1;
    }
    if start < n {
        let piece = text.substring_char(start, n);
        proof {
            lemma_line_split_no_newline(text@.skip(start as int));
        }
        let line = piece.to_owned();
        let ghost prev = out@;
        out.push(line);
        proof {
            assert(out@.map_values(|l: String| l@) =~= prev.map_values(|l: String| l@).push(
                piece@,
            ));
        }
    } else {
        proof {
            assert(text@.skip(start as int) =~= Seq::<char>::empty());
        }
    }
    proof {
        assert(line_split(text@) =~~= out@.map_values(|l: String| l@));
    }
    out
}

} // verus!
