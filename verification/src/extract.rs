use vstd::prelude::*;
use crate::error::FortuneError;
use crate::strfile::SEPARATOR_WIDTH;

verus! {

/// ASCII line feed.
pub const NEWLINE: u8 = 10;

/// An ASCII whitespace byte: space, tab, line feed, vertical tab, form
/// feed or carriage return.
pub open spec fn is_ws(b: u8) -> bool {
    b == 32 || b == 9 || b == 10 || b == 11 || b == 12 || b == 13
}

/// The exclusive end of the line that starts at `pos`: one past the next
/// line feed, or the end of the text when no line feed follows.
pub open spec fn line_end(text: Seq<u8>, pos: int) -> int
    decreases text.len() - pos,
{
    if 0 <= pos < text.len() {
        if text[pos] == NEWLINE {
            pos + 1
        } else {
            line_end(text, pos + 1)
        }
    } else {
        text.len() as int
    }
}

/// A line always reaches past its start and never past the text.
pub proof fn lemma_line_end_bounds(text: Seq<u8>, pos: int)
    requires
        0 <= pos <= text.len(),
    ensures
        pos <= line_end(text, pos) <= text.len(),
        pos < text.len() ==> pos < line_end(text, pos),
    decreases text.len() - pos,
{
    if pos < text.len() && text[pos] != NEWLINE {
        lemma_line_end_bounds(text, pos + 1);
    }
}

/// The text with every trailing whitespace byte removed.
pub open spec fn trim_trailing(s: Seq<u8>) -> Seq<u8>
    decreases s.len(),
{
    if s.len() > 0 && is_ws(s[s.len() - 1]) {
        trim_trailing(s.drop_last())
    } else {
        s
    }
}

/// The bytes from `pos` to `e` form a separator line: trimmed of trailing
/// whitespace they are exactly the one separator character.
pub open spec fn is_sep_line(text: Seq<u8>, pos: int, e: int, sep: u8) -> bool {
    trim_trailing(text.subrange(pos, e)) == seq![sep]
}

/// The record text that separator-scanning reads from `pos`: whole lines,
/// accumulated until a separator line or the end of the text.
pub open spec fn scan_from(text: Seq<u8>, pos: int, sep: u8) -> Seq<u8>
    decreases text.len() - pos,
{
    if 0 <= pos < text.len() {
        let e = line_end(text, pos);
        proof {
            lemma_line_end_bounds(text, pos);
        }
        if is_sep_line(text, pos, e, sep) {
            Seq::empty()
        } else {
            text.subrange(pos, e) + scan_from(text, e, sep)
        }
    } else {
        Seq::empty()
    }
}

/// Finds the exclusive end of the line that starts at `pos`.
fn find_line_end(text: &[u8], pos: usize) -> (e: usize)
    requires
        pos <= text@.len(),
    ensures
        e == line_end(text@, pos as int),
        pos <= e <= text@.len(),
        pos < text@.len() ==> pos < e,
{
    proof {
        lemma_line_end_bounds(text@, pos as int);
    }
    let n = text.len();
    let mut i = pos;
    while i < n && text[i] != NEWLINE
        invariant
            pos <= i <= n,
            n == text@.len(),
            line_end(text@, pos as int) == line_end(text@, i as int),
        decreases n - i,
    {
        i += 1;
    }
    if i < n {
        i + 1
    } else {
        i
    }
}

/// Whether a byte is ASCII whitespace.
fn ws_byte(b: u8) -> (r: bool)
    ensures
        r == is_ws(b),
{
    b == 32 || b == 9 || b == 10 || b == 11 || b == 12 || b == 13
}

/// Whether the bytes from `pos` to `e` form a separator line.
fn check_sep_line(text: &[u8], pos: usize, e: usize, sep: u8) -> (r: bool)
    requires
        pos <= e <= text@.len(),
    ensures
        r == is_sep_line(text@, pos as int, e as int, sep),
{
    let mut j = e;
    while j > pos && ws_byte(text[j - 1])
        invariant
            pos <= j <= e,
            e <= text@.len(),
            trim_trailing(text@.subrange(pos as int, e as int)) == trim_trailing(
                text@.subrange(pos as int, j as int),
            ),
        decreases j,
    {
        proof {
            assert(text@.subrange(pos as int, j as int).drop_last() =~= text@.subrange(
                pos as int,
                j as int - 1,
            ));
        }
        j -= 1;
    }
    let ghost trimmed = trim_trailing(text@.subrange(pos as int, e as int));
    proof {
        assert(trimmed == text@.subrange(pos as int, j as int));
    }
    if j > pos && j - pos == 1 && text[pos] == sep {
        proof {
            assert(trimmed =~= seq![sep]);
        }
        true
    } else {
        proof {
            assert(trimmed != seq![sep]) by {
                if j == pos + 1 {
                    assert(trimmed.len() == 1 && trimmed[0] == text@[pos as int]);
                }
            }
        }
        false
    }
}

/// Reads successive lines starting at `start`, accumulating them until a
/// line that, trimmed of trailing whitespace, is exactly the separator
/// character, or until the end of the text.
pub fn read_lines_until(text: &[u8], start: usize, sep: u8) -> (r: Vec<u8>)
    requires
        start <= text@.len(),
    ensures
        r@ == scan_from(text@, start as int, sep),
{
    let mut out: Vec<u8> = Vec::new();
    let mut pos = start;
    let n = text.len();
    while pos < n
        invariant
            start <= pos <= n,
            n == text@.len(),
            scan_from(text@, start as int, sep) == out@ + scan_from(text@, pos as int, sep),
        decreases n - pos,
    {
        let e = find_line_end(text, pos);
        if check_sep_line(text, pos, e, sep) {
            assert(scan_from(text@, pos as int, sep) =~= Seq::<u8>::empty());
            assert(out@ =~= out@ + scan_from(text@, pos as int, sep));
            return out;
        }
        let ghost before = out@;
        let mut k = pos;
        while k < e
            invariant
                pos <= k <= e <= n,
                n == text@.len(),
                out@ =~= before + text@.subrange(pos as int, k as int),
            decreases e - k,
        {
            out.push(text[k]);
            proof {
                assert(before + text@.subrange(pos as int, k as int + 1) =~= (before
                    + text@.subrange(pos as int, k as int)).push(text@[k as int]));
            }
            k += 1;
        }
        proof {
            assert(scan_from(text@, pos as int, sep) == text@.subrange(pos as int, e as int)
                + scan_from(text@, e as int, sep));
            assert(scan_from(text@, start as int, sep) =~= out@ + scan_from(text@, e as int, sep));
        }
        pos = e;
    }
    assert(scan_from(text@, pos as int, sep) =~= Seq::<u8>::empty());
    assert(out@ =~= out@ + scan_from(text@, pos as int, sep));
    out
}

/// Separator-scan extraction: reads whole lines from `start` until a
/// separator line or the end of the text.  Fails exactly when `start` lies
/// beyond the end of the text.
pub fn extract_scan(text: &[u8], start: u32, sep: u8) -> (r: Result<Vec<u8>, FortuneError>)
    ensures
        match r {
            Ok(v) => start <= text@.len() && v@ == scan_from(text@, start as int, sep),
            Err(e) => e == FortuneError::Bounds && start > text@.len(),
        },
{
    if (start as u64) > (text.len() as u64) {
        return Err(FortuneError::Bounds);
    }
    Ok(read_lines_until(text, start as usize, sep))
}

/// Exact-offset extraction: the bytes from `start` to `end` less the
/// trailing separator.  Fails exactly when the offsets lie beyond the end of
/// the text or cross each other.
pub fn extract_exact(text: &[u8], start: u32, end: u32) -> (r: Result<Vec<u8>, FortuneError>)
    ensures
        match r {
            Ok(v) => {
                &&& start <= end <= text@.len()
                &&& v@ == text@.subrange(
                    start as int,
                    if end - start >= SEPARATOR_WIDTH {
                        end - SEPARATOR_WIDTH
                    } else {
                        start as int
                    },
                )
                &&& v@.len() == if end - start >= SEPARATOR_WIDTH {
                    end - start - SEPARATOR_WIDTH
                } else {
                    0
                }
            },
            Err(e) => e == FortuneError::Bounds && !(start <= end <= text@.len()),
        },
{
    if (end as u64) > (text.len() as u64) || start > end {
        return Err(FortuneError::Bounds);
    }
    let stop: usize = if end - start >= SEPARATOR_WIDTH {
        (end - SEPARATOR_WIDTH) as usize
    } else {
        start as usize
    };
    let mut out: Vec<u8> = Vec::new();
    let mut k = start as usize;
    assert(out@ =~= text@.subrange(start as int, start as int));
    while k < stop
        invariant
            start <= k <= stop,
            stop <= text@.len(),
            out@ =~= text@.subrange(start as int, k as int),
        decreases stop - k,
    {
        out.push(text[k]);
        proof {
            assert(text@.subrange(start as int, k as int + 1) =~= text@.subrange(
                start as int,
                k as int,
            ).push(text@[k as int]));
        }
        k += 1;
    }
    Ok(out)
}

} // verus!
