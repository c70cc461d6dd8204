//! Splitting a byte text into newline-delimited lines.
use vstd::prelude::*;

verus! {

/// The line terminator.
pub const NEWLINE: u8 = 10;

/// Scans `text` from the left: the lines closed by a newline so far, and the
/// bytes of the line still open at the end.
pub open spec fn scan_lines(text: Seq<u8>) -> (Seq<Seq<u8>>, Seq<u8>)
    decreases text.len(),
{
    if text.len() == 0 {
        (seq![], seq![])
    } else {
        let (done, open) = scan_lines(text.drop_last());
        if text.last() == NEWLINE {
            (done.push(open), seq![])
        } else {
            (done, open.push(text.last()))
        }
    }
}

/// The lines of `text`, each without its terminator; a final line that lacks
/// a terminator still counts, an empty remainder after the last newline does not.
pub open spec fn lines_of(text: Seq<u8>) -> Seq<Seq<u8>> {
    let (done, open) = scan_lines(text);
    if open.len() == 0 {
        done
    } else {
        done.push(open)
    }
}

/// The lines of `text`, as `lines_of` gives them.
pub fn split_lines(text: &Vec<u8>) -> (lines: Vec<Vec<u8>>)
    ensures
        lines@.len() == lines_of(text@).len(),
        forall|k: int| 0 <= k < lines@.len() ==> #[trigger] lines@[k]@ == lines_of(text@)[k],
{
    let mut lines: Vec<Vec<u8>> = Vec::new();
    let mut open: Vec<u8> = Vec::new();
    let mut i: usize = 0;
    while i < text.len()
        invariant
            i <= text.len(),
            lines@.len() == scan_lines(text@.take(i as int)).0.len(),
            forall|k: int|
                0 <= k < lines@.len() ==> #[trigger] lines@[k]@ == scan_lines(
                    text@.take(i as int),
                ).0[k],
            open@ == scan_lines(text@.take(i as int)).1,
        decreases text.len() - i,
    {
        assert(text@.take(i + 1).drop_last() =~= text@.take(i as int));
        let b = text[i];
        if b == NEWLINE {
            lines.push(open);
            open = Vec::new();
        } else {
            open.push(b);
        }
        i += 1;
    }
    assert(text@.take(text.len() as int) =~= text@);
    if open.len() > 0 {
        lines.push(open);
    }
    lines
}

proof fn lemma_scan_bounded(text: Seq<u8>)
    ensures
        scan_lines(text).0.len() + scan_lines(text).1.len() <= text.len(),
    decreases text.len(),
{
    if text.len() > 0 {
        lemma_scan_bounded(text.drop_last());
    }
}

/// A text holds no more lines than bytes.
pub proof fn lemma_lines_bounded(text: Seq<u8>)
    ensures
        lines_of(text).len() <= text.len(),
{
    lemma_scan_bounded(text);
}

} // verus!
