//! The stream transformer: the state carried from line to line and from
//! source to source, and what it emits.
use vstd::prelude::*;
use crate::config::ResolvedConfig;
use crate::lines::{lines_of, split_lines};
use crate::render::{
    LineRecord, render, render_all, push_number_field, push_shown_text, lemma_render_all_push,
    lemma_render_all_concat, DOLLAR,
};
use crate::lines::NEWLINE;

verus! {

/// A blank line is dropped: squeezing is on and the previous line of the same
/// source was blank too.
pub open spec fn squeezed(cfg: ResolvedConfig, line: Seq<u8>, last_blank: bool) -> bool {
    cfg.squeeze_blank && line.len() == 0 && last_blank
}

/// An emitted line takes a counter value.
pub open spec fn numbered(cfg: ResolvedConfig, line: Seq<u8>) -> bool {
    cfg.number && (!cfg.number_nonblank || line.len() != 0)
}

/// The record emitted for `line` when the counter stands at `counter`.
pub open spec fn line_record(cfg: ResolvedConfig, line: Seq<u8>, counter: nat) -> LineRecord {
    LineRecord {
        label: if numbered(cfg, line) { Some(counter + 1) } else { None },
        text: line,
    }
}

/// The counter after `line` is emitted.
pub open spec fn advanced(cfg: ResolvedConfig, line: Seq<u8>, counter: nat) -> nat {
    if numbered(cfg, line) { counter + 1 } else { counter }
}

/// Runs the lines of one source with the counter starting at `c0`: the
/// records emitted, the counter afterwards, and whether the last line was blank.
pub open spec fn source_scan(cfg: ResolvedConfig, c0: nat, lines: Seq<Seq<u8>>) -> (Seq<LineRecord>, nat, bool)
    decreases lines.len(),
{
    if lines.len() == 0 {
        (seq![], c0, false)
    } else {
        let (rs, c, blank) = source_scan(cfg, c0, lines.drop_last());
        let line = lines.last();
        if squeezed(cfg, line, blank) {
            (rs, c, true)
        } else {
            (rs.push(line_record(cfg, line, c)), advanced(cfg, line, c), line.len() == 0)
        }
    }
}

/// Runs a sequence of source texts with one counter starting at zero: the
/// records emitted and the counter afterwards.
pub open spec fn run_scan(cfg: ResolvedConfig, texts: Seq<Seq<u8>>) -> (Seq<LineRecord>, nat)
    decreases texts.len(),
{
    if texts.len() == 0 {
        (seq![], 0)
    } else {
        let (rs, c) = run_scan(cfg, texts.drop_last());
        let (more, c2, _blank) = source_scan(cfg, c, lines_of(texts.last()));
        (rs + more, c2)
    }
}

/// The number of lines in all of `texts`.
pub open spec fn total_lines(texts: Seq<Seq<u8>>) -> nat
    decreases texts.len(),
{
    if texts.len() == 0 {
        0
    } else {
        total_lines(texts.drop_last()) + lines_of(texts.last()).len()
    }
}

/// The contents of byte vectors.
pub open spec fn texts_of(sources: Seq<Vec<u8>>) -> Seq<Seq<u8>> {
    sources.map_values(|s: Vec<u8>| s@)
}

/// The bytes a run over `texts` writes.
pub open spec fn run_output(cfg: ResolvedConfig, texts: Seq<Seq<u8>>) -> Seq<u8> {
    render_all(cfg, run_scan(cfg, texts).0)
}

pub proof fn lemma_source_counter_bound(cfg: ResolvedConfig, c0: nat, lines: Seq<Seq<u8>>)
    ensures
        c0 <= source_scan(cfg, c0, lines).1 <= c0 + lines.len(),
    decreases lines.len(),
{
    if lines.len() > 0 {
        lemma_source_counter_bound(cfg, c0, lines.drop_last());
    }
}

pub proof fn lemma_run_counter_bound(cfg: ResolvedConfig, texts: Seq<Seq<u8>>)
    ensures
        run_scan(cfg, texts).1 <= total_lines(texts),
    decreases texts.len(),
{
    if texts.len() > 0 {
        lemma_run_counter_bound(cfg, texts.drop_last());
        lemma_source_counter_bound(cfg, run_scan(cfg, texts.drop_last()).1, lines_of(texts.last()));
    }
}

pub proof fn lemma_total_lines_prefix(texts: Seq<Seq<u8>>, i: int)
    requires
        0 <= i <= texts.len(),
    ensures
        total_lines(texts.take(i)) <= total_lines(texts),
    decreases texts.len(),
{
    if i < texts.len() {
        assert(texts.drop_last().take(i) =~= texts.take(i));
        lemma_total_lines_prefix(texts.drop_last(), i);
    } else {
        assert(texts.take(i) =~= texts);
    }
}

/// Handles one line: unless it is squeezed away, appends its rendering to
/// `out`, taking the next counter value where the line is numbered. Then
/// records whether the line was blank.
pub fn parse_line(
    config: &ResolvedConfig,
    line: &Vec<u8>,
    counter: &mut u64,
    last_blank: &mut bool,
    out: &mut Vec<u8>,
)
    requires
        *old(counter) < u64::MAX,
    ensures
        squeezed(*config, line@, *old(last_blank)) ==> final(out)@ == old(out)@ && *final(counter)
            == *old(counter),
        !squeezed(*config, line@, *old(last_blank)) ==> final(out)@ == old(out)@ + render(
            *config,
            line_record(*config, line@, *old(counter) as nat),
        ) && *final(counter) == advanced(*config, line@, *old(counter) as nat),
        *final(last_blank) == (line@.len() == 0),
{
    let is_blank = line.len() == 0;
    if config.squeeze_blank && is_blank && *last_blank {
        return;
    }
    let ghost start = out@;
    if config.number && (!config.number_nonblank || !is_blank) {
        *counter = *counter + 1;
        push_number_field(*counter, out);
    }
    push_shown_text(config, line, out);
    if config.show_ends {
        out.push(DOLLAR);
    }
    out.push(NEWLINE);
    *last_blank = is_blank;
    assert(out@ =~= start + render(*config, line_record(*config, line@, *old(counter) as nat)));
}

/// The counter shared by every source of a run.
pub struct RunState {
    pub line_counter: u64,
}

impl RunState {
    /// A run that has emitted nothing yet.
    pub fn new() -> (r: RunState)
        ensures
            r.line_counter == 0,
    {
        RunState { line_counter: 0 }
    }

    /// Transforms the whole text of one source, continuing the run's counter;
    /// blank-line squeezing starts afresh with this source.
    pub fn parse_source(&mut self, config: &ResolvedConfig, text: &Vec<u8>) -> (out: Vec<u8>)
        requires
            old(self).line_counter + lines_of(text@).len() <= u64::MAX,
        ensures
            out@ == render_all(
                *config,
                source_scan(*config, old(self).line_counter as nat, lines_of(text@)).0,
            ),
            final(self).line_counter == source_scan(
                *config,
                old(self).line_counter as nat,
                lines_of(text@),
            ).1,
    {
        let lines = split_lines(text);
        let ghost ls = lines_of(text@);
        let ghost c0 = self.line_counter as nat;
        let mut out: Vec<u8> = Vec::new();
        let mut last_blank = false;
        let mut i: usize = 0;
        while i < lines.len()
            invariant
                i <= lines.len(),
                lines@.len() == ls.len(),
                forall|k: int| 0 <= k < lines@.len() ==> #[trigger] lines@[k]@ == ls[k],
                c0 + ls.len() <= u64::MAX,
                self.line_counter <= c0 + i,
                out@ == render_all(*config, source_scan(*config, c0, ls.take(i as int)).0),
                self.line_counter == source_scan(*config, c0, ls.take(i as int)).1,
                last_blank == source_scan(*config, c0, ls.take(i as int)).2,
            decreases lines.len() - i,
        {
            proof {
                assert(ls.take(i + 1).drop_last() =~= ls.take(i as int));
                assert(ls.take(i + 1).last() == ls[i as int]);
                let rs = source_scan(*config, c0, ls.take(i as int)).0;
                lemma_render_all_push(
                    *config,
                    rs,
                    line_record(*config, ls[i as int], self.line_counter as nat),
                );
            }
            parse_line(config, &lines[i], &mut self.line_counter, &mut last_blank, &mut out);
            i += 1;
        }
        assert(ls.take(lines.len() as int) =~= ls);
        out
    }
}

/// Concatenates the transformed lines of every source, in order, with one
/// counter running across all of them.
pub fn cat(config: &ResolvedConfig, sources: &Vec<Vec<u8>>) -> (out: Vec<u8>)
    requires
        total_lines(texts_of(sources@)) <= u64::MAX,
    ensures
        out@ == run_output(*config, texts_of(sources@)),
{
    let ghost texts = texts_of(sources@);
    let mut state = RunState::new();
    let mut out: Vec<u8> = Vec::new();
    let mut i: usize = 0;
    while i < sources.len()
        invariant
            i <= sources.len(),
            texts == texts_of(sources@),
            total_lines(texts) <= u64::MAX,
            out@ == render_all(*config, run_scan(*config, texts.take(i as int)).0),
            state.line_counter == run_scan(*config, texts.take(i as int)).1,
        decreases sources.len() - i,
    {
        let ghost prefix = texts.take(i as int);
        proof {
            assert(texts.take(i + 1).drop_last() =~= prefix);
            assert(texts.take(i + 1).last() == sources@[i as int]@);
            lemma_run_counter_bound(*config, prefix);
            lemma_total_lines_prefix(texts, i + 1);
            assert(total_lines(texts.take(i + 1)) == total_lines(prefix) + lines_of(
                sources@[i as int]@,
            ).len());
        }
        let part = state.parse_source(config, &sources[i]);
        proof {
            lemma_render_all_concat(
                *config,
                run_scan(*config, prefix).0,
                source_scan(*config, run_scan(*config, prefix).1, lines_of(sources@[i as int]@)).0,
            );
        }
        let mut part = part;
        out.append(&mut part);
        i += 1;
    }
    assert(texts.take(sources.len() as int) =~= texts);
    out
}

} // verus!
