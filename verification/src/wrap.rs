//! Greedy line wrapping for text commands.
//!
//! Text is wrapped at a page width given in character cells: a line breaks
//! at the last space that still fits, and a single token wider than the
//! page is broken hard at the page width.  The space chosen as a break
//! point is consumed; it starts no line.

use vstd::prelude::*;

use crate::command::copy_range;

verus! {

pub const SPACE: u8 = 0x20;

/// The largest index `i <= k` with `s[i]` a space, or `-1` if none.
pub open spec fn last_space(s: Seq<u8>, k: int) -> int
    decreases k + 1,
{
    if k < 0 {
        -1
    } else if 0 <= k < s.len() && s[k] == SPACE {
        k
    } else {
        last_space(s, k - 1)
    }
}

proof fn lemma_last_space_range(s: Seq<u8>, k: int)
    requires
        k >= -1,
    ensures
        -1 <= last_space(s, k) <= k,
        last_space(s, k) >= 0 ==> last_space(s, k) < s.len() && s[last_space(s, k)] == SPACE,
    decreases k + 1,
{
    if k >= 0 {
        lemma_last_space_range(s, k - 1);
    }
}

/// The lines `s` wraps into at width `w`.
///
/// A run of at most `w` cells stands as one line; otherwise the line
/// breaks at the last space at index at most `w`, which is dropped, or
/// hard at `w` cells when no space fits.  The empty run yields no lines,
/// so every produced line is non-empty and at most `w` cells wide.
pub open spec fn wrap_spec(s: Seq<u8>, w: int) -> Seq<Seq<u8>>
    decreases s.len(),
{
    if w < 1 {
        Seq::empty()
    } else if s.len() == 0 {
        Seq::empty()
    } else if s.len() <= w {
        seq![s]
    } else {
        let b = last_space(s, w);
        if 1 <= b < s.len() {
            seq![s.subrange(0, b)] + wrap_spec(s.subrange(b + 1, s.len() as int), w)
        } else if b == 0 {
            wrap_spec(s.subrange(1, s.len() as int), w)
        } else {
            seq![s.subrange(0, w)] + wrap_spec(s.subrange(w, s.len() as int), w)
        }
    }
}

/// Every wrapped line is non-empty and fits the page width.
pub proof fn lemma_wrap_line_bounds(s: Seq<u8>, w: int)
    requires
        w >= 1,
    ensures
        forall|j: int|
            0 <= j < wrap_spec(s, w).len() ==> 0 < #[trigger] wrap_spec(s, w)[j].len() <= w,
    decreases s.len(),
{
    if s.len() == 0 {
    } else if s.len() <= w {
        assert(wrap_spec(s, w) == seq![s]);
        assert(wrap_spec(s, w)[0] == s);
    } else {
        let b = last_space(s, w);
        lemma_last_space_range(s, w);
        if 1 <= b < s.len() {
            let first = s.subrange(0, b);
            let rec = wrap_spec(s.subrange(b + 1, s.len() as int), w);
            lemma_wrap_line_bounds(s.subrange(b + 1, s.len() as int), w);
            assert(wrap_spec(s, w) == seq![first] + rec);
            assert forall|j: int| 0 <= j < wrap_spec(s, w).len() implies 0 < #[trigger] wrap_spec(
                s,
                w,
            )[j].len() <= w by {
                if j == 0 {
                    assert(wrap_spec(s, w)[j] == first);
                } else {
                    assert(wrap_spec(s, w)[j] == rec[j - 1]);
                }
            }
        } else if b == 0 {
            lemma_wrap_line_bounds(s.subrange(1, s.len() as int), w);
        } else {
            let first = s.subrange(0, w);
            let rec = wrap_spec(s.subrange(w, s.len() as int), w);
            lemma_wrap_line_bounds(s.subrange(w, s.len() as int), w);
            assert(wrap_spec(s, w) == seq![first] + rec);
            assert forall|j: int| 0 <= j < wrap_spec(s, w).len() implies 0 < #[trigger] wrap_spec(
                s,
                w,
            )[j].len() <= w by {
                if j == 0 {
                    assert(wrap_spec(s, w)[j] == first);
                } else {
                    assert(wrap_spec(s, w)[j] == rec[j - 1]);
                }
            }
        }
    }
}

/// A non-empty run that fits the page width wraps to itself alone.
pub proof fn lemma_wrap_fixed(t: Seq<u8>, w: int)
    requires
        w >= 1,
        0 < t.len() <= w,
    ensures
        wrap_spec(t, w) == seq![t],
{
}

/// Each line of `lines` wrapped again at width `w`, in order.
pub open spec fn rewrap(lines: Seq<Seq<u8>>, w: int) -> Seq<Seq<u8>>
    decreases lines.len(),
{
    if lines.len() == 0 {
        Seq::empty()
    } else {
        wrap_spec(lines[0], w) + rewrap(lines.subrange(1, lines.len() as int), w)
    }
}

proof fn lemma_rewrap_fitting(lines: Seq<Seq<u8>>, w: int)
    requires
        w >= 1,
        forall|j: int| 0 <= j < lines.len() ==> 0 < #[trigger] lines[j].len() <= w,
    ensures
        rewrap(lines, w) == lines,
    decreases lines.len(),
{
    if lines.len() == 0 {
        assert(rewrap(lines, w) =~= lines);
    } else {
        let rest = lines.subrange(1, lines.len() as int);
        lemma_wrap_fixed(lines[0], w);
        lemma_rewrap_fitting(rest, w);
        assert(seq![lines[0]] + rest =~= lines);
    }
}

/// Wrapping is idempotent: re-wrapping the lines produced by a wrap, at
/// the same page width, reproduces exactly the same lines.
pub proof fn lemma_wrap_idempotent(s: Seq<u8>, w: int)
    requires
        w >= 1,
    ensures
        rewrap(wrap_spec(s, w), w) == wrap_spec(s, w),
{
    lemma_wrap_line_bounds(s, w);
    lemma_rewrap_fitting(wrap_spec(s, w), w);
}

/// Finds the break point: the last space at index at most `w`, if any.
fn find_last_space(bytes: &Vec<u8>, start: usize, w: usize) -> (r: Option<usize>)
    requires
        start < bytes@.len(),
        start + w < bytes@.len(),
    ensures
        match r {
            Some(j) => j <= w && j == last_space(
                bytes@.subrange(start as int, bytes@.len() as int),
                w as int,
            ),
            None => last_space(bytes@.subrange(start as int, bytes@.len() as int), w as int)
                == -1,
        },
{
    let m = bytes.len();
    let ghost rest = bytes@.subrange(start as int, bytes@.len() as int);
    let mut j: usize = w;
    loop
        invariant
            j <= w,
            start + w < m == bytes@.len(),
            rest == bytes@.subrange(start as int, bytes@.len() as int),
            last_space(rest, w as int) == last_space(rest, j as int),
        decreases j,
    {
        if bytes[start + j] == SPACE {
            assert(rest[j as int] == SPACE);
            return Some(j);
        }
        assert(rest[j as int] != SPACE);
        if j == 0 {
            assert(last_space(rest, -1) == -1);
            assert(last_space(rest, 0) == -1);
            return None;
        }
        j = j - 1;
    }
}

/// Wraps one text run at page width `w`, producing its lines.
pub fn wrap_text(bytes: &Vec<u8>, w: usize) -> (lines: Vec<Vec<u8>>)
    requires
        w >= 1,
    ensures
        lines@.map_values(|l: Vec<u8>| l@) == wrap_spec(bytes@, w as int),
{
    let n = bytes.len();
    let mut lines: Vec<Vec<u8>> = Vec::new();
    let mut start: usize = 0;
    proof {
        assert(bytes@.subrange(0, n as int) =~= bytes@);
        assert(Seq::<Seq<u8>>::empty() + wrap_spec(bytes@, w as int) =~= wrap_spec(
            bytes@,
            w as int,
        ));
        assert(lines@.map_values(|l: Vec<u8>| l@) =~= Seq::<Seq<u8>>::empty());
    }
    while start < n
        invariant
            start <= n == bytes@.len(),
            w >= 1,
            wrap_spec(bytes@, w as int) == lines@.map_values(|l: Vec<u8>| l@) + wrap_spec(
                bytes@.subrange(start as int, n as int),
                w as int,
            ),
        decreases n - start,
    {
        let ghost rest = bytes@.subrange(start as int, n as int);
        let ghost pre = lines@.map_values(|l: Vec<u8>| l@);
        let next: usize;
        if n - start <= w {
            let line = copy_range(bytes, start, n);
            next = n;
            proof {
                assert(line@ =~= rest);
                assert(wrap_spec(rest, w as int) == seq![rest]);
                assert(bytes@.subrange(n as int, n as int) =~= Seq::<u8>::empty());
                assert(wrap_spec(Seq::<u8>::empty(), w as int) =~= Seq::<Seq<u8>>::empty());
                assert(seq![rest] + Seq::<Seq<u8>>::empty() =~= seq![rest]);
            }
            lines.push(line);
            proof {
                assert(lines@.map_values(|l: Vec<u8>| l@) =~= pre.push(rest));
                assert(pre + (seq![rest] + wrap_spec(
                    bytes@.subrange(next as int, n as int),
                    w as int,
                )) =~= pre.push(rest) + wrap_spec(bytes@.subrange(next as int, n as int), w as int));
            }
        } else {
            match find_last_space(bytes, start, w) {
                None => {
                    let line = copy_range(bytes, start, start + w);
                    next = start + w;
                    proof {
                        assert(line@ =~= rest.subrange(0, w as int));
                        assert(rest.subrange(w as int, rest.len() as int) =~= bytes@.subrange(
                            next as int,
                            n as int,
                        ));
                    }
                    lines.push(line);
                    proof {
                        assert(lines@.map_values(|l: Vec<u8>| l@) =~= pre.push(line@));
                        assert(pre + (seq![line@] + wrap_spec(
                            bytes@.subrange(next as int, n as int),
                            w as int,
                        )) =~= pre.push(line@) + wrap_spec(
                            bytes@.subrange(next as int, n as int),
                            w as int,
                        ));
                    }
                },
                Some(b) => {
                    if b == 0 {
                        next = start + 1;
                        proof {
                            assert(rest.subrange(1, rest.len() as int) =~= bytes@.subrange(
                                next as int,
                                n as int,
                            ));
                        }
                    } else {
                        let line = copy_range(bytes, start, start + b);
                        next = start + b + 1;
                        proof {
                            assert(line@ =~= rest.subrange(0, b as int));
                            assert(rest.subrange(b + 1, rest.len() as int) =~= bytes@.subrange(
                                next as int,
                                n as int,
                            ));
                        }
                        lines.push(line);
                        proof {
                            assert(lines@.map_values(|l: Vec<u8>| l@) =~= pre.push(line@));
                            assert(pre + (seq![line@] + wrap_spec(
                                bytes@.subrange(next as int, n as int),
                                w as int,
                            )) =~= pre.push(line@) + wrap_spec(
                                bytes@.subrange(next as int, n as int),
                                w as int,
                            ));
                        }
                    }
                },
            }
        }
        start = next;
    }
    proof {
        assert(bytes@.subrange(start as int, n as int) =~= Seq::<u8>::empty());
        assert(lines@.map_values(|l: Vec<u8>| l@) + Seq::<Seq<u8>>::empty() =~= lines@.map_values(
            |l: Vec<u8>| l@,
        ));
    }
    lines
}

} // verus!
