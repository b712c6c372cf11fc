//! The line-by-line calculator: what a typed line asks for, and keeping a
//! result among the session's lines.
use vstd::prelude::*;
use crate::text::{chars_of, string_of};
use crate::chars::{trimmed, starts_with, trim, slice, same_str, starts_with_str};
use crate::eval_context::EvalContext;

verus! {

/// What a line typed at the prompt asks for.
pub enum CliCommand {
    Quit,
    /// Write the session's lines to the file at this path.
    Export(String),
    /// Read and evaluate the lines of the file at this path.
    Import(String),
    /// Evaluate this (trimmed) line.
    Evaluate(String),
}

pub enum CliCommandView {
    Quit,
    Export(Seq<char>),
    Import(Seq<char>),
    Evaluate(Seq<char>),
}

impl View for CliCommand {
    type V = CliCommandView;

    open spec fn view(&self) -> CliCommandView {
        match self {
            CliCommand::Quit => CliCommandView::Quit,
            CliCommand::Export(p) => CliCommandView::Export(p@),
            CliCommand::Import(p) => CliCommandView::Import(p@),
            CliCommand::Evaluate(t) => CliCommandView::Evaluate(t@),
        }
    }
}

/// The path after the first matching prefix, trimmed.
pub open spec fn path_after(t: Seq<char>, short: Seq<char>, long: Seq<char>) -> Seq<char> {
    if starts_with(t, short) {
        trimmed(t.subrange(short.len() as int, t.len() as int))
    } else {
        trimmed(t.subrange(long.len() as int, t.len() as int))
    }
}

/// `quit` or `q` ends; `:w <path>` (`:export`) and `:r <path>` (`:import`)
/// work on files; any other line is evaluated.
pub open spec fn cli_command_of(s: Seq<char>) -> CliCommandView {
    let t = trimmed(s);
    if t == "quit"@ || t == "q"@ {
        CliCommandView::Quit
    } else if starts_with(t, ":w "@) || starts_with(t, ":export "@) {
        CliCommandView::Export(path_after(t, ":w "@, ":export "@))
    } else if starts_with(t, ":r "@) || starts_with(t, ":import "@) {
        CliCommandView::Import(path_after(t, ":r "@, ":import "@))
    } else {
        CliCommandView::Evaluate(t)
    }
}

/// Reads a line typed at the prompt.
pub fn cli_command(line: &str) -> (c: CliCommand)
    ensures
        c@ == cli_command_of(line@),
{
    let t = trim(&chars_of(line));
    proof {
        reveal_strlit(":w ");
        reveal_strlit(":export ");
        reveal_strlit(":r ");
        reveal_strlit(":import ");
    }
    if same_str(&t, "quit") || same_str(&t, "q") {
        return CliCommand::Quit;
    }
    let w = starts_with_str(&t, ":w ");
    if w || starts_with_str(&t, ":export ") {
        let skip: usize = if w { 3 } else { 8 };
        return CliCommand::Export(string_of(&trim(&slice(&t, skip, t.len()))));
    }
    let r = starts_with_str(&t, ":r ");
    if r || starts_with_str(&t, ":import ") {
        let skip: usize = if r { 3 } else { 8 };
        return CliCommand::Import(string_of(&trim(&slice(&t, skip, t.len()))));
    }
    CliCommand::Evaluate(string_of(&t))
}

/// Keeps a result among the session's lines and advances the line counter;
/// returns the number shown with it (the counter before).
pub fn keep_result(ctx: &mut EvalContext, expression: &str, bits: u64) -> (shown: usize)
    requires
        old(ctx).counter < usize::MAX,
    ensures
        shown == old(ctx).counter,
        final(ctx).counter == old(ctx).counter + 1,
        final(ctx).history_entries@.len() == old(ctx).history_entries@.len() + 1,
        final(ctx).history_entries@.last().0@ == expression@,
        final(ctx).history_entries@.last().1 == bits,
        final(ctx).history_entries@.drop_last() == old(ctx).history_entries@,
        final(ctx)@ == (crate::eval_context::CtxView { counter: old(ctx).counter + 1, ..old(ctx)@ }),
        final(ctx).digit_threshold == old(ctx).digit_threshold,
{
    let shown = ctx.counter;
    ctx.history_entries.push((expression.to_owned(), bits));
    assert(ctx.history_entries@.drop_last() =~= old(ctx).history_entries@);
    ctx.counter = ctx.counter + 1;
    shown
}

} // verus!

verus! {

/// `:w`, `:export`, `:r` and `:import` followed by a space and a path name
/// that path, for export and for import; `q` and `quit` end the session.
pub proof fn file_commands_read(p: Seq<char>)
    requires
        p.len() > 0,
        !crate::text::whitespace(p[0]),
        !crate::text::whitespace(p[p.len() - 1]),
    ensures
        cli_command_of(":w "@ + p) == CliCommandView::Export(p),
        cli_command_of(":export "@ + p) == CliCommandView::Export(p),
        cli_command_of(":r "@ + p) == CliCommandView::Import(p),
        cli_command_of(":import "@ + p) == CliCommandView::Import(p),
        cli_command_of("q"@) == CliCommandView::Quit,
        cli_command_of("quit"@) == CliCommandView::Quit,
{
    reveal_strlit(":w ");
    reveal_strlit(":export ");
    reveal_strlit(":r ");
    reveal_strlit(":import ");
    reveal_strlit("quit");
    reveal_strlit("q");
    crate::chars::lemma_trimmed_between(p, 0, p.len() as int);
    assert(p.subrange(0, p.len() as int) =~= p);
    let cw = ":w "@ + p;
    let ce = ":export "@ + p;
    let cr = ":r "@ + p;
    let ci = ":import "@ + p;
    crate::chars::lemma_trimmed_between(cw, 0, cw.len() as int);
    crate::chars::lemma_trimmed_between(ce, 0, ce.len() as int);
    crate::chars::lemma_trimmed_between(cr, 0, cr.len() as int);
    crate::chars::lemma_trimmed_between(ci, 0, ci.len() as int);
    assert(cw.subrange(0, cw.len() as int) =~= cw);
    assert(ce.subrange(0, ce.len() as int) =~= ce);
    assert(cr.subrange(0, cr.len() as int) =~= cr);
    assert(ci.subrange(0, ci.len() as int) =~= ci);
    assert(cw != "quit"@ && cw != "q"@) by {
        assert(cw[0] == ':');
    }
    assert(ce != "quit"@ && ce != "q"@) by {
        assert(ce[0] == ':');
    }
    assert(cr != "quit"@ && cr != "q"@) by {
        assert(cr[0] == ':');
    }
    assert(ci != "quit"@ && ci != "q"@) by {
        assert(ci[0] == ':');
    }
    assert(cw.subrange(0, 3) =~= ":w "@);
    assert(cw.subrange(3, cw.len() as int) =~= p);
    assert(ce.subrange(0, 3) != ":w "@) by {
        assert(ce.subrange(0, 3)[1] == 'e');
    }
    assert(ce.subrange(0, 8) =~= ":export "@);
    assert(ce.subrange(8, ce.len() as int) =~= p);
    assert(cr.subrange(0, 3) != ":w "@) by {
        assert(cr.subrange(0, 3)[1] == 'r');
    }
    assert(!starts_with(cr, ":export "@)) by {
        if cr.len() >= 8 {
            assert(cr.subrange(0, 8)[1] == 'r');
        }
    }
    assert(cr.subrange(0, 3) =~= ":r "@);
    assert(cr.subrange(3, cr.len() as int) =~= p);
    assert(ci.subrange(0, 3) != ":w "@) by {
        assert(ci.subrange(0, 3)[1] == 'i');
    }
    assert(ci.subrange(0, 8) != ":export "@) by {
        assert(ci.subrange(0, 8)[1] == 'i');
    }
    assert(ci.subrange(0, 3) != ":r "@) by {
        assert(ci.subrange(0, 3)[1] == 'i');
    }
    assert(ci.subrange(0, 8) =~= ":import "@);
    assert(ci.subrange(8, ci.len() as int) =~= p);
    let q = "q"@;
    crate::chars::lemma_trimmed_between(q, 0, 1);
    assert(q.subrange(0, 1) =~= q);
    let qu = "quit"@;
    crate::chars::lemma_trimmed_between(qu, 0, 4);
    assert(qu.subrange(0, 4) =~= qu);
}

} // verus!
