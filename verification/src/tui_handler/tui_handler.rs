//! The state of the terminal interface, what each key does to it, and what
//! an entered line leaves in the list of results. Drawing and reading keys
//! happen outside; here the interface decides.
use vstd::prelude::*;
use crate::text::{chars_of, string_of};
use crate::chars::{slice, extend, same};
use crate::input_handler::{utf8_len, end_of_word, beginning_of_word, lemma_utf8_len_ge};
use crate::vi_inputs::{History, HistoryView, previous_index};
use crate::tui_handler::selection::{TuiSelectionMap, SelectionView, initial_selection};
use crate::eval_context::{EvalContext, CtxView};

verus! {

/// Normal mode moves and scrolls; insert mode types.
pub enum InputMode {
    Normal,
    Insert,
}

/// The state of the interface: the line being typed with its cursor (a
/// character index), the results shown, the session, the typed lines, which
/// entry of each list is selected, the key pressed before (for `gg`, `GG`,
/// `dd`) and the selected window.
pub struct TuiHandler {
    pub input: String,
    pub character_index: usize,
    pub input_mode: InputMode,
    pub results: Vec<String>,
    pub eval_ctx: EvalContext,
    pub history: History,
    pub results_selected: Option<usize>,
    pub variables_selected: Option<usize>,
    pub functions_selected: Option<usize>,
    pub last_key: Option<char>,
    pub tui_selection_map: TuiSelectionMap,
}

pub struct TuiView {
    pub input: Seq<char>,
    pub cursor: int,
    pub mode: InputMode,
    pub results: Seq<Seq<char>>,
    pub ctx: CtxView,
    /// The session's kept lines: each expression with the bits of its result.
    pub entries: Seq<(Seq<char>, u64)>,
    /// The session's threshold for scientific notation.
    pub threshold: int,
    pub history: HistoryView,
    pub results_selected: Option<int>,
    pub variables_selected: Option<int>,
    pub functions_selected: Option<int>,
    pub last_key: Option<char>,
    pub selection: SelectionView,
}

pub open spec fn opt_int(o: Option<usize>) -> Option<int> {
    match o {
        Some(i) => Some(i as int),
        None => None,
    }
}

impl View for TuiHandler {
    type V = TuiView;

    open spec fn view(&self) -> TuiView {
        TuiView {
            input: self.input@,
            cursor: self.character_index as int,
            mode: self.input_mode,
            results: self.results@.map_values(|r: String| r@),
            ctx: self.eval_ctx@,
            entries: self.eval_ctx.history_entries@.map_values(|e: (String, u64)| (e.0@, e.1)),
            threshold: self.eval_ctx.digit_threshold as int,
            history: self.history@,
            results_selected: opt_int(self.results_selected),
            variables_selected: opt_int(self.variables_selected),
            functions_selected: opt_int(self.functions_selected),
            last_key: self.last_key,
            selection: self.tui_selection_map@,
        }
    }
}

impl TuiHandler {
    /// The session, the typed lines and the window grid are well formed.
    pub open spec fn wf(&self) -> bool {
        &&& self.eval_ctx.wf()
        &&& self@.history.wf()
        &&& self@.selection.wf()
    }
}

/// `p`, but at most the length of `s`.
pub open spec fn clamped(s: Seq<char>, p: int) -> int {
    if p <= s.len() {
        p
    } else {
        s.len() as int
    }
}

/// The byte length of `s` (saturating at `usize::MAX`).
pub open spec fn byte_len(s: Seq<char>) -> int {
    if utf8_len(s) <= usize::MAX {
        utf8_len(s) as int
    } else {
        usize::MAX as int
    }
}

pub open spec fn cursor_left(v: TuiView) -> TuiView {
    TuiView { cursor: clamped(v.input, if v.cursor > 0 { v.cursor - 1 } else { 0 }), ..v }
}

pub open spec fn cursor_right(v: TuiView) -> TuiView {
    TuiView { cursor: clamped(v.input, if v.cursor < usize::MAX { v.cursor + 1 } else { v.cursor }), ..v }
}

pub open spec fn word_end(v: TuiView) -> TuiView {
    if v.input.len() == 0 {
        v
    } else {
        TuiView { cursor: end_of_word(v.input, v.cursor), ..v }
    }
}

pub open spec fn word_start(v: TuiView) -> TuiView {
    if v.input.len() == 0 || v.cursor == 0 {
        v
    } else {
        TuiView { cursor: beginning_of_word(v.input, v.cursor), ..v }
    }
}

/// `c` typed at the cursor (at the end where the cursor is past it).
pub open spec fn typed(v: TuiView, c: char) -> TuiView {
    let k = clamped(v.input, v.cursor);
    let inp = v.input.subrange(0, k) + seq![c] + v.input.subrange(k, v.input.len() as int);
    TuiView { input: inp, cursor: clamped(inp, if v.cursor < usize::MAX { v.cursor + 1 } else { v.cursor }), ..v }
}

/// Backspace: the characters before `cursor - 1` and from `cursor` on stay.
pub open spec fn backspaced(v: TuiView) -> TuiView {
    if v.cursor == 0 {
        v
    } else {
        let inp = v.input.subrange(0, clamped(v.input, v.cursor - 1)) + v.input.subrange(clamped(v.input, v.cursor), v.input.len() as int);
        TuiView { input: inp, cursor: clamped(inp, v.cursor - 1), ..v }
    }
}

/// `x`: the character under the cursor goes when the byte position of the
/// cursor is below the number of characters.
pub open spec fn removed_at_cursor(v: TuiView) -> TuiView {
    if v.cursor < v.input.len() && utf8_len(v.input.subrange(0, v.cursor)) < v.input.len() {
        TuiView { input: v.input.subrange(0, v.cursor) + v.input.subrange(v.cursor + 1, v.input.len() as int), ..v }
    } else {
        v
    }
}

/// The line emptied and the cursor at its start.
pub open spec fn cleared(v: TuiView) -> TuiView {
    TuiView { input: seq![], cursor: 0, ..v }
}

/// The older typed line, with the cursor at its byte length; with no typed
/// line, the line is emptied.
pub open spec fn history_back(v: TuiView) -> TuiView {
    if v.history.entries.len() == 0 {
        TuiView { input: seq![], ..v }
    } else {
        let i = previous_index(v.history);
        let e = v.history.entries[i];
        TuiView { input: e, cursor: byte_len(e), history: HistoryView { index: Some(i), ..v.history }, ..v }
    }
}

/// The newer typed line, with the cursor at its byte length; past the newest,
/// an empty line.
pub open spec fn history_forward(v: TuiView) -> TuiView {
    match v.history.index {
        Some(i) => if i < v.history.entries.len() - 1 {
            let e = v.history.entries[i + 1];
            TuiView { input: e, cursor: byte_len(e), history: HistoryView { index: Some(i + 1), ..v.history }, ..v }
        } else {
            TuiView { input: seq![], cursor: 0, history: HistoryView { index: None, ..v.history }, ..v }
        },
        None => TuiView { input: seq![], cursor: 0, ..v },
    }
}

/// One entry up, stopping at the first.
pub open spec fn up_from(s: Option<int>) -> Option<int> {
    match s {
        Some(i) => Some(if i > 0 { i - 1 } else { 0 }),
        None => Some(0),
    }
}

/// One entry down while below `limit`.
pub open spec fn down_from(s: Option<int>, limit: int) -> Option<int> {
    match s {
        Some(i) => Some(if i < limit { i + 1 } else { i }),
        None => Some(0),
    }
}

pub open spec fn less_one(n: int) -> int {
    if n > 0 {
        n - 1
    } else {
        0
    }
}

/// The number of variables shown: those whose name does not start with `lin`.
pub open spec fn shown_count(vars: Seq<(Seq<char>, u64)>) -> nat
    decreases vars.len(),
{
    if vars.len() == 0 {
        0
    } else {
        shown_count(vars.drop_last()) + if crate::chars::starts_with(vars.last().0, "lin"@) {
            0nat
        } else {
            1nat
        }
    }
}

/// The first position from `i` on where `p` occurs in `s`.
pub open spec fn first_match(s: Seq<char>, p: Seq<char>, i: int) -> Option<int>
    decreases s.len() + 1 - i,
{
    if i < 0 || i + p.len() > s.len() {
        None
    } else if s.subrange(i, i + p.len()) == p {
        Some(i)
    } else {
        first_match(s, p, i + 1)
    }
}

/// The expression of a result line `n) expression = value`; empty where the
/// line has not that shape.
pub open spec fn copied_expression(line: Seq<char>) -> Seq<char> {
    match first_match(line, ") "@, 0) {
        Some(i) => {
            let rest = line.subrange(i + 2, line.len() as int);
            match first_match(rest, " = "@, 0) {
                Some(j) => rest.subrange(0, j),
                None => seq![],
            }
        },
        None => seq![],
    }
}

/// `y`: the expression of the selected result becomes the line.
pub open spec fn copied(v: TuiView) -> TuiView {
    match v.results_selected {
        Some(i) => if 0 <= i < v.results.len() {
            let e = copied_expression(v.results[i]);
            TuiView { input: e, cursor: byte_len(e), ..v }
        } else {
            v
        },
        None => v,
    }
}

proof fn lemma_first_match(s: Seq<char>, p: Seq<char>, i: int)
    ensures
        first_match(s, p, i) matches Some(k) ==> i <= k && 0 <= k && k + p.len() <= s.len() && s.subrange(k, k + p.len()) == p,
    decreases s.len() + 1 - i,
{
    if !(i < 0 || i + p.len() > s.len()) && s.subrange(i, i + p.len()) != p {
        lemma_first_match(s, p, i + 1);
    }
}

/// Where `p` first occurs in `s`.
fn find_text(s: &Vec<char>, p: &Vec<char>) -> (r: Option<usize>)
    ensures
        opt_int(r) == first_match(s@, p@, 0),
{
    if p.len() > s.len() {
        return None;
    }
    if p.len() == 0 {
        assert(s@.subrange(0, 0) =~= p@);
        return Some(0);
    }
    let last = s.len() - p.len();
    let mut i: usize = 0;
    while i <= last
        invariant
            last + p@.len() == s@.len(),
            s@.len() <= usize::MAX,
            p@.len() > 0,
            first_match(s@, p@, 0) == first_match(s@, p@, i as int),
        decreases last + 1 - i,
    {
        let piece = slice(s, i, i + p.len());
        if same(&piece, p) {
            return Some(i);
        }
        i = i + 1;
    }
    None
}

/// The UTF-8 length of `c`, saturating at `usize::MAX`.
fn byte_count(c: &Vec<char>) -> (r: usize)
    ensures
        r == byte_len(c@),
{
    let mut total: usize = 0;
    let mut i: usize = 0;
    while i < c.len()
        invariant
            i <= c@.len(),
            total == byte_len(c@.subrange(0, i as int)),
        decreases c@.len() - i,
    {
        let ch = c[i];
        let u = ch as u32;
        let l: usize = if u < 0x80 {
            1
        } else if u < 0x800 {
            2
        } else if u < 0x10000 {
            3
        } else {
            4
        };
        assert(c@.subrange(0, i as int + 1).drop_last() =~= c@.subrange(0, i as int));
        total = total.saturating_add(l);
        i = i + 1;
    }
    assert(c@.subrange(0, c@.len() as int) =~= c@);
    total
}

fn opt_up(s: Option<usize>) -> (r: Option<usize>)
    ensures
        opt_int(r) == up_from(opt_int(s)),
{
    match s {
        Some(i) => Some(if i > 0 { i - 1 } else { 0 }),
        None => Some(0),
    }
}

fn opt_down(s: Option<usize>, limit: usize) -> (r: Option<usize>)
    ensures
        opt_int(r) == down_from(opt_int(s), limit as int),
{
    match s {
        Some(i) => Some(if i < limit { i + 1 } else { i }),
        None => Some(0),
    }
}

impl TuiHandler {
    /// A new interface in normal mode, with a fresh session.
    pub fn new() -> (t: Self)
        ensures
            t.wf(),
            t@.input.len() == 0,
            t@.cursor == 0,
            t@.mode == InputMode::Normal,
            t@.results.len() == 0,
            t@.entries.len() == 0,
            t@.history.entries.len() == 0,
            t@.history.index is None,
            t@.results_selected is None,
            t@.variables_selected is None,
            t@.functions_selected is None,
            t@.last_key is None,
            t@.selection == initial_selection(),
            t.eval_ctx.vars() == crate::constant::constant_vars(),
            t.eval_ctx.funcs() == crate::constant::constant_funcs(),
            t.eval_ctx.counter == 0,
            t@.ctx.recently.len() == 0,
            t@.ctx.sci,
            t@.ctx.precision == 6,
            t@.threshold == 6,
    {
        let t = Self {
            input: String::new(),
            character_index: 0,
            input_mode: InputMode::Normal,
            results: Vec::new(),
            eval_ctx: EvalContext::new(),
            history: History::new(),
            results_selected: None,
            variables_selected: None,
            functions_selected: None,
            last_key: None,
            tui_selection_map: TuiSelectionMap::new(),
        };
        assert(t@.results =~= Seq::<Seq<char>>::empty());
        assert(t@.entries =~= Seq::<(Seq<char>, u64)>::empty());
        t
    }

    /// The characters of the line.
    fn line(&self) -> (c: Vec<char>)
        ensures
            c@ == self@.input,
    {
        chars_of(self.input.as_str())
    }

    fn clamp_cursor(&self, new_cursor_pos: usize) -> (r: usize)
        ensures
            r == clamped(self@.input, new_cursor_pos as int),
    {
        let n = self.line().len();
        if new_cursor_pos <= n { new_cursor_pos } else { n }
    }

    fn move_cursor_left(&mut self)
        ensures
            final(self)@ == cursor_left(old(self)@),
    {
        let moved = self.character_index.saturating_sub(1);
        self.character_index = self.clamp_cursor(moved);
    }

    fn move_cursor_right(&mut self)
        ensures
            final(self)@ == cursor_right(old(self)@),
    {
        let moved = self.character_index.saturating_add(1);
        self.character_index = self.clamp_cursor(moved);
    }

    fn reset_cursor(&mut self)
        ensures
            final(self)@ == (TuiView { cursor: 0, ..old(self)@ }),
    {
        self.character_index = 0;
    }

    fn clear_line(&mut self)
        ensures
            final(self)@ == cleared(old(self)@),
    {
        self.input = String::new();
        self.character_index = 0;
    }
}

} // verus!

verus! {

impl TuiHandler {
    fn move_to_end_of_word(&mut self)
        ensures
            final(self)@ == word_end(old(self)@),
    {
        let c = self.line();
        if c.len() == 0 {
            return;
        }
        self.character_index = crate::input_handler::end_of_word_at(&c, self.character_index);
    }

    fn move_to_beginning_of_word(&mut self)
        requires
            old(self)@.input.len() == 0 || old(self)@.cursor <= old(self)@.input.len(),
        ensures
            final(self)@ == word_start(old(self)@),
    {
        let c = self.line();
        if c.len() == 0 || self.character_index == 0 {
            return;
        }
        self.character_index = crate::input_handler::beginning_of_word_at(&c, self.character_index);
    }

    fn add_to_history(&mut self)
        requires
            old(self).wf(),
        ensures
            final(self)@ == (TuiView { history: HistoryView { entries: old(self)@.history.entries.push(old(self)@.input), index: None }, ..old(self)@ }),
            final(self).wf(),
    {
        self.history.add(&self.input);
    }

    fn get_previous_history(&mut self)
        requires
            old(self).wf(),
        ensures
            final(self)@ == history_back(old(self)@),
            final(self).wf(),
    {
        self.input = String::new();
        let ghost h = self@.history;
        match self.history.get_previous() {
            Some(previous) => {
                let c = chars_of(previous.as_str());
                self.character_index = byte_count(&c);
                self.input = previous.clone();
            },
            None => {},
        }
        assert(self@.history =~= history_back(old(self)@).history);
    }

    fn get_next_history(&mut self)
        requires
            old(self).wf(),
        ensures
            final(self)@ == history_forward(old(self)@),
            final(self).wf(),
    {
        self.input = String::new();
        match self.history.get_next() {
            Some(next) => {
                let c = chars_of(next.as_str());
                self.character_index = byte_count(&c);
                self.input = next.clone();
            },
            None => {
                self.character_index = 0;
            },
        }
        assert(self@.history =~= history_forward(old(self)@).history);
    }

    /// The byte position of the cursor: that of its character, or the byte
    /// length where the cursor is past the line (saturating at `usize::MAX`).
    fn byte_index(&self) -> (r: usize)
        ensures
            r == byte_len(self@.input.subrange(0, clamped(self@.input, self@.cursor))),
    {
        let c = self.line();
        let k = if self.character_index <= c.len() { self.character_index } else { c.len() };
        byte_count(&slice(&c, 0, k))
    }

    fn enter_char(&mut self, new_char: char)
        ensures
            final(self)@ == typed(old(self)@, new_char),
    {
        let c = self.line();
        let k = if self.character_index <= c.len() { self.character_index } else { c.len() };
        let mut out = slice(&c, 0, k);
        out.push(new_char);
        extend(&mut out, &slice(&c, k, c.len()));
        assert(out@ =~= typed(old(self)@, new_char).input);
        self.input = string_of(&out);
        self.move_cursor_right();
    }

    fn delete_char_indexed(&mut self)
        ensures
            final(self)@ == removed_at_cursor(old(self)@),
    {
        let index = self.byte_index();
        let c = self.line();
        if self.character_index < c.len() && index < c.len() {
            let k = self.character_index;
            let mut out = slice(&c, 0, k);
            extend(&mut out, &slice(&c, k + 1, c.len()));
            self.input = string_of(&out);
        } else {
            proof {
                if self@.cursor < self@.input.len() {
                    lemma_utf8_len_ge(self@.input.subrange(0, self@.cursor));
                }
            }
        }
    }

    fn delete_char(&mut self)
        ensures
            final(self)@ == backspaced(old(self)@),
    {
        if self.character_index != 0 {
            let c = self.line();
            let cur = self.character_index;
            let a = if cur - 1 <= c.len() { cur - 1 } else { c.len() };
            let b = if cur <= c.len() { cur } else { c.len() };
            let mut out = slice(&c, 0, a);
            extend(&mut out, &slice(&c, b, c.len()));
            self.input = string_of(&out);
            self.move_cursor_left();
        }
    }

    fn scroll_functions_up(&mut self)
        ensures
            final(self)@ == (TuiView { functions_selected: up_from(old(self)@.functions_selected), ..old(self)@ }),
    {
        self.functions_selected = opt_up(self.functions_selected);
    }

    fn scroll_functions_down(&mut self)
        ensures
            final(self)@ == (TuiView { functions_selected: down_from(old(self)@.functions_selected, old(self)@.ctx.funcs.len() as int), ..old(self)@ }),
    {
        let func_count = crate::maps::func_len(&self.eval_ctx.defined_funcs);
        self.functions_selected = opt_down(self.functions_selected, func_count);
    }

    fn scroll_results_down(&mut self)
        ensures
            final(self)@ == (TuiView { results_selected: down_from(old(self)@.results_selected, less_one(old(self)@.results.len() as int)), ..old(self)@ }),
    {
        let n = self.results.len();
        self.results_selected = opt_down(self.results_selected, n.saturating_sub(1));
    }

    fn scroll_results_top(&mut self)
        ensures
            final(self)@ == (TuiView { results_selected: Some(0), ..old(self)@ }),
    {
        self.results_selected = Some(0);
    }

    fn scroll_results_bottom(&mut self)
        ensures
            final(self)@ == (TuiView { results_selected: Some(old(self)@.results.len() as int), ..old(self)@ }),
    {
        self.results_selected = Some(self.results.len());
    }

    fn scroll_results_up(&mut self)
        ensures
            final(self)@ == (TuiView { results_selected: up_from(old(self)@.results_selected), ..old(self)@ }),
    {
        self.results_selected = opt_up(self.results_selected);
    }

    /// The number of variables whose name does not start with `lin`.
    fn shown_variables(&self) -> (r: usize)
        ensures
            r == shown_count(self@.ctx.vars),
    {
        let n = crate::maps::var_len(&self.eval_ctx.defined_vars);
        let ghost vars = self@.ctx.vars;
        let mut count: usize = 0;
        let mut i: usize = 0;
        while i < n
            invariant
                vars == self@.ctx.vars,
                n == vars.len(),
                i <= n,
                count == shown_count(vars.subrange(0, i as int)),
                count <= i,
            decreases n - i,
        {
            match crate::maps::var_get_index(&self.eval_ctx.defined_vars, i) {
                Some((name, _)) => {
                    assert(vars.subrange(0, i as int + 1).drop_last() =~= vars.subrange(0, i as int));
                    if !crate::chars::starts_with_str(&chars_of(name.as_str()), "lin") {
                        count = count + 1;
                    }
                },
                None => {},
            }
            i = i + 1;
        }
        assert(vars.subrange(0, n as int) =~= vars);
        count
    }

    fn scroll_variables_down(&mut self)
        ensures
            final(self)@ == (TuiView { variables_selected: down_from(old(self)@.variables_selected, less_one(shown_count(old(self)@.ctx.vars) as int)), ..old(self)@ }),
    {
        let var_count = self.shown_variables();
        self.variables_selected = opt_down(self.variables_selected, var_count.saturating_sub(1));
    }

    fn scroll_variables_up(&mut self)
        ensures
            final(self)@ == (TuiView { variables_selected: up_from(old(self)@.variables_selected), ..old(self)@ }),
    {
        self.variables_selected = opt_up(self.variables_selected);
    }

    fn copy_selected_line(&mut self)
        ensures
            final(self)@ == copied(old(self)@),
    {
        match self.results_selected {
            Some(index) => {
                if index < self.results.len() {
                    let line = chars_of(self.results[index].as_str());
                    let e = expression_of_line(&line);
                    self.character_index = byte_count(&e);
                    self.input = string_of(&e);
                }
            },
            None => {},
        }
    }
}

/// The expression of a result line `n) expression = value`.
fn expression_of_line(line: &Vec<char>) -> (r: Vec<char>)
    ensures
        r@ == copied_expression(line@),
{
    let close = chars_of(") ");
    let eq = chars_of(" = ");
    proof {
        reveal_strlit(") ");
        reveal_strlit(" = ");
    }
    match find_text(line, &close) {
        Some(i) => {
            proof {
                lemma_first_match(line@, close@, 0);
            }
            let n = line.len();
            let rest = slice(line, i + 2, n);
            match find_text(&rest, &eq) {
                Some(j) => {
                    proof {
                        lemma_first_match(rest@, eq@, 0);
                    }
                    slice(&rest, 0, j)
                },
                None => Vec::new(),
            }
        },
        None => Vec::new(),
    }
}

} // verus!

verus! {

/// A key press as the interface reads it: a character with whether Control
/// was held, or one of the other keys it knows.
pub enum Key {
    Char(char, bool),
    Left,
    Right,
    Up,
    Down,
    Esc,
    Enter,
    Backspace,
    Other,
}

/// What the caller does after a key: go on, stop, or enter the line.
pub enum KeyAction {
    Continue,
    Quit,
    Submit,
}

/// Asking whether a window is selected remembers the selected window.
pub open spec fn noted(v: TuiView) -> TuiView {
    TuiView { selection: SelectionView { last_win: v.selection.selected_window(), ..v.selection }, ..v }
}

pub open spec fn on_window(v: TuiView, w: Seq<char>) -> bool {
    v.selection.selected_window() == w
}

pub open spec fn unkeyed(v: TuiView) -> TuiView {
    TuiView { last_key: None, ..v }
}

pub open spec fn with_selection(v: TuiView, s: SelectionView) -> TuiView {
    TuiView { selection: s, ..v }
}

/// The selection back at the bottom-left cell.
pub open spec fn reset_view(v: TuiView) -> TuiView {
    with_selection(v, SelectionView { pos: (0, 0), ..v.selection })
}

/// `h` or Left in normal mode: in the input window, the cursor goes left.
pub open spec fn normal_left(v: TuiView) -> TuiView {
    let n = noted(v);
    if on_window(v, "INPUT_WIN"@) { unkeyed(cursor_left(n)) } else { n }
}

/// `l` or Right in normal mode.
pub open spec fn normal_right(v: TuiView) -> TuiView {
    let n = noted(v);
    if on_window(v, "INPUT_WIN"@) { unkeyed(cursor_right(n)) } else { n }
}

/// `k` or Up in normal mode: an older typed line, or the selected list scrolls up.
pub open spec fn normal_up(v: TuiView) -> TuiView {
    let n = noted(v);
    if on_window(v, "INPUT_WIN"@) {
        unkeyed(history_back(n))
    } else if on_window(v, "RESULT_WIN"@) {
        unkeyed(TuiView { results_selected: up_from(n.results_selected), ..n })
    } else if on_window(v, "VARIABLE_WIN"@) {
        unkeyed(TuiView { variables_selected: up_from(n.variables_selected), ..n })
    } else if on_window(v, "FUNCTION_WIN"@) {
        unkeyed(TuiView { functions_selected: up_from(n.functions_selected), ..n })
    } else {
        n
    }
}

/// `j` or Down in normal mode: a newer typed line, or the selected list scrolls down.
pub open spec fn normal_down(v: TuiView) -> TuiView {
    let n = noted(v);
    if on_window(v, "INPUT_WIN"@) {
        unkeyed(history_forward(n))
    } else if on_window(v, "RESULT_WIN"@) {
        unkeyed(TuiView { results_selected: down_from(n.results_selected, less_one(n.results.len() as int)), ..n })
    } else if on_window(v, "VARIABLE_WIN"@) {
        unkeyed(TuiView { variables_selected: down_from(n.variables_selected, less_one(shown_count(n.ctx.vars) as int)), ..n })
    } else if on_window(v, "FUNCTION_WIN"@) {
        unkeyed(TuiView { functions_selected: down_from(n.functions_selected, n.ctx.funcs.len() as int), ..n })
    } else {
        n
    }
}

/// A character key in normal mode.
pub open spec fn normal_char(v: TuiView, c: char, ctrl: bool) -> (TuiView, KeyAction) {
    let s = v.selection;
    if c == 'i' {
        (unkeyed(TuiView { mode: InputMode::Insert, ..reset_view(v) }), KeyAction::Continue)
    } else if c == 'a' {
        (unkeyed(TuiView { mode: InputMode::Insert, ..cursor_right(reset_view(v)) }), KeyAction::Continue)
    } else if c == 'q' {
        (v, KeyAction::Quit)
    } else if c == ':' {
        (unkeyed(TuiView { mode: InputMode::Insert, ..typed(cleared(v), ':') }), KeyAction::Continue)
    } else if ctrl && c == 'k' {
        (with_selection(v, s.moved(crate::tui_handler::selection::moved_up(s))), KeyAction::Continue)
    } else if ctrl && c == 'j' {
        (with_selection(v, s.moved(crate::tui_handler::selection::moved_down(s))), KeyAction::Continue)
    } else if ctrl && c == 'h' {
        (with_selection(v, s.moved(crate::tui_handler::selection::moved_left(s))), KeyAction::Continue)
    } else if ctrl && c == 'l' {
        (with_selection(v, s.moved(crate::tui_handler::selection::moved_right(s))), KeyAction::Continue)
    } else if c == 'h' {
        (normal_left(v), KeyAction::Continue)
    } else if c == 'l' {
        (normal_right(v), KeyAction::Continue)
    } else if c == 'e' {
        (if on_window(v, "INPUT_WIN"@) { unkeyed(word_end(noted(v))) } else { noted(v) }, KeyAction::Continue)
    } else if c == 'b' {
        (if on_window(v, "INPUT_WIN"@) { unkeyed(word_start(noted(v))) } else { noted(v) }, KeyAction::Continue)
    } else if c == 'k' {
        (normal_up(v), KeyAction::Continue)
    } else if c == 'j' {
        (normal_down(v), KeyAction::Continue)
    } else if c == 'g' {
        (if v.last_key == Some('g') {
            unkeyed(TuiView { results_selected: Some(0), ..v })
        } else {
            TuiView { last_key: Some('g'), ..v }
        }, KeyAction::Continue)
    } else if c == 'G' {
        (if v.last_key == Some('G') {
            if on_window(v, "RESULT_WIN"@) {
                unkeyed(TuiView { results_selected: Some(v.results.len() as int), ..noted(v) })
            } else {
                noted(v)
            }
        } else {
            TuiView { last_key: Some('G'), ..v }
        }, KeyAction::Continue)
    } else if c == 'd' {
        (if v.last_key == Some('d') {
            if on_window(v, "INPUT_WIN"@) { unkeyed(cleared(noted(v))) } else { noted(v) }
        } else {
            TuiView { last_key: Some('d'), ..v }
        }, KeyAction::Continue)
    } else if c == 'y' {
        (if on_window(v, "RESULT_WIN"@) { unkeyed(copied(reset_view(noted(v)))) } else { noted(v) }, KeyAction::Continue)
    } else if c == 'x' {
        (if on_window(v, "INPUT_WIN"@) { unkeyed(removed_at_cursor(noted(v))) } else { noted(v) }, KeyAction::Continue)
    } else if c == 'J' {
        (unkeyed(TuiView { results_selected: down_from(v.results_selected, less_one(v.results.len() as int)), ..v }), KeyAction::Continue)
    } else if c == 'K' {
        (unkeyed(TuiView { results_selected: up_from(v.results_selected), ..v }), KeyAction::Continue)
    } else if c == 'N' {
        (unkeyed(TuiView { variables_selected: down_from(v.variables_selected, less_one(shown_count(v.ctx.vars) as int)), ..v }), KeyAction::Continue)
    } else if c == 'P' {
        (unkeyed(TuiView { variables_selected: up_from(v.variables_selected), ..v }), KeyAction::Continue)
    } else {
        (unkeyed(v), KeyAction::Continue)
    }
}

/// A key in normal mode.
pub open spec fn normal_key(v: TuiView, k: Key) -> (TuiView, KeyAction) {
    match k {
        Key::Char(c, ctrl) => normal_char(v, c, ctrl),
        Key::Left => (normal_left(v), KeyAction::Continue),
        Key::Right => (normal_right(v), KeyAction::Continue),
        Key::Up => (normal_up(v), KeyAction::Continue),
        Key::Down => (normal_down(v), KeyAction::Continue),
        Key::Esc => {
            let r = reset_view(v);
            let n = noted(r);
            let inp = if on_window(r, "INPUT_WIN"@) { seq![] } else { n.input };
            (unkeyed(TuiView { input: inp, cursor: 0, ..n }), KeyAction::Continue)
        },
        Key::Enter => if on_window(v, "INPUT_WIN"@) {
            (unkeyed(noted(v)), KeyAction::Submit)
        } else {
            (noted(v), KeyAction::Continue)
        },
        _ => (unkeyed(v), KeyAction::Continue),
    }
}

/// A key in insert mode.
pub open spec fn insert_key(v: TuiView, k: Key) -> (TuiView, KeyAction) {
    let s = v.selection;
    match k {
        Key::Char(c, ctrl) => if ctrl && c == 'k' {
            (TuiView { mode: InputMode::Normal, ..with_selection(v, s.moved(crate::tui_handler::selection::moved_up(s))) }, KeyAction::Continue)
        } else if ctrl && c == 'j' {
            (TuiView { mode: InputMode::Normal, ..with_selection(v, s.moved(crate::tui_handler::selection::moved_down(s))) }, KeyAction::Continue)
        } else if ctrl && c == 'h' {
            (TuiView { mode: InputMode::Normal, ..with_selection(v, s.moved(crate::tui_handler::selection::moved_left(s))) }, KeyAction::Continue)
        } else if ctrl && c == 'l' {
            (TuiView { mode: InputMode::Normal, ..with_selection(v, s.moved(crate::tui_handler::selection::moved_right(s))) }, KeyAction::Continue)
        } else {
            (typed(v, c), KeyAction::Continue)
        },
        Key::Enter => (v, KeyAction::Submit),
        Key::Backspace => (backspaced(v), KeyAction::Continue),
        Key::Left => (cursor_left(v), KeyAction::Continue),
        Key::Right => (cursor_right(v), KeyAction::Continue),
        Key::Up => (history_back(v), KeyAction::Continue),
        Key::Down => (history_forward(v), KeyAction::Continue),
        Key::Esc => (TuiView { mode: InputMode::Normal, ..v }, KeyAction::Continue),
        Key::Other => (v, KeyAction::Continue),
    }
}

/// The state after a key and what the caller does next.
pub open spec fn after_key(v: TuiView, k: Key) -> (TuiView, KeyAction) {
    match v.mode {
        InputMode::Normal => normal_key(v, k),
        InputMode::Insert => insert_key(v, k),
    }
}

/// The key can be taken: `b` in the input window needs the cursor inside a
/// nonempty line.
pub open spec fn key_allowed(v: TuiView, k: Key) -> bool {
    (v.mode == InputMode::Normal && on_window(v, "INPUT_WIN"@) && v.input.len() > 0 && v.cursor > v.input.len())
        ==> !(k matches Key::Char(c, _) && c == 'b')
}

} // verus!

verus! {

fn is_last_key(last: Option<char>, c: char) -> (b: bool)
    ensures
        b == (last == Some(c)),
{
    match last {
        Some(k) => k == c,
        None => false,
    }
}

impl TuiHandler {
    /// Takes one key press; the caller stops on `Quit` and enters the line
    /// on `Submit`.
    pub fn handle_key(&mut self, key: Key) -> (a: KeyAction)
        requires
            old(self).wf(),
            key_allowed(old(self)@, key),
        ensures
            (final(self)@, a) == after_key(old(self)@, key),
            final(self).wf(),
    {
        match self.input_mode {
            InputMode::Normal => self.normal_key(key),
            InputMode::Insert => self.insert_key(key),
        }
    }

    fn normal_left(&mut self)
        requires
            old(self).wf(),
        ensures
            final(self)@ == normal_left(old(self)@),
            final(self).wf(),
    {
        if self.tui_selection_map.selected("INPUT_WIN") {
            self.move_cursor_left();
            self.last_key = None;
        }
    }

    fn normal_right(&mut self)
        requires
            old(self).wf(),
        ensures
            final(self)@ == normal_right(old(self)@),
            final(self).wf(),
    {
        if self.tui_selection_map.selected("INPUT_WIN") {
            self.move_cursor_right();
            self.last_key = None;
        }
    }

    fn normal_up(&mut self)
        requires
            old(self).wf(),
        ensures
            final(self)@ == normal_up(old(self)@),
            final(self).wf(),
    {
        if self.tui_selection_map.selected("INPUT_WIN") {
            self.get_previous_history();
            self.last_key = None;
        } else if self.tui_selection_map.selected("RESULT_WIN") {
            self.scroll_results_up();
            self.last_key = None;
        } else if self.tui_selection_map.selected("VARIABLE_WIN") {
            self.scroll_variables_up();
            self.last_key = None;
        } else if self.tui_selection_map.selected("FUNCTION_WIN") {
            self.scroll_functions_up();
            self.last_key = None;
        }
    }

    fn normal_down(&mut self)
        requires
            old(self).wf(),
        ensures
            final(self)@ == normal_down(old(self)@),
            final(self).wf(),
    {
        if self.tui_selection_map.selected("INPUT_WIN") {
            self.get_next_history();
            self.last_key = None;
        } else if self.tui_selection_map.selected("RESULT_WIN") {
            self.scroll_results_down();
            self.last_key = None;
        } else if self.tui_selection_map.selected("VARIABLE_WIN") {
            self.scroll_variables_down();
            self.last_key = None;
        } else if self.tui_selection_map.selected("FUNCTION_WIN") {
            self.scroll_functions_down();
            self.last_key = None;
        }
    }

    fn normal_char(&mut self, c: char, ctrl: bool) -> (a: KeyAction)
        requires
            old(self).wf(),
            key_allowed(old(self)@, Key::Char(c, ctrl)),
            old(self)@.mode == InputMode::Normal,
        ensures
            (final(self)@, a) == normal_char(old(self)@, c, ctrl),
            final(self).wf(),
    {
        if c == 'i' {
            self.tui_selection_map.reset_selection();
            self.input_mode = InputMode::Insert;
            self.last_key = None;
        } else if c == 'a' {
            self.tui_selection_map.reset_selection();
            self.move_cursor_right();
            self.input_mode = InputMode::Insert;
            self.last_key = None;
        } else if c == 'q' {
            return KeyAction::Quit;
        } else if c == ':' {
            self.clear_line();
            self.enter_char(':');
            self.input_mode = InputMode::Insert;
            self.last_key = None;
        } else if ctrl && c == 'k' {
            self.tui_selection_map.move_up();
        } else if ctrl && c == 'j' {
            self.tui_selection_map.move_down();
        } else if ctrl && c == 'h' {
            self.tui_selection_map.move_left();
        } else if ctrl && c == 'l' {
            self.tui_selection_map.move_right();
        } else if c == 'h' {
            self.normal_left();
        } else if c == 'l' {
            self.normal_right();
        } else if c == 'e' {
            if self.tui_selection_map.selected("INPUT_WIN") {
                self.move_to_end_of_word();
                self.last_key = None;
            }
        } else if c == 'b' {
            if self.tui_selection_map.selected("INPUT_WIN") {
                self.move_to_beginning_of_word();
                self.last_key = None;
            }
        } else if c == 'k' {
            self.normal_up();
        } else if c == 'j' {
            self.normal_down();
        } else if c == 'g' {
            if is_last_key(self.last_key, 'g') {
                self.scroll_results_top();
                self.last_key = None;
            } else {
                self.last_key = Some('g');
            }
        } else if c == 'G' {
            if is_last_key(self.last_key, 'G') {
                if self.tui_selection_map.selected("RESULT_WIN") {
                    self.scroll_results_bottom();
                    self.last_key = None;
                }
            } else {
                self.last_key = Some('G');
            }
        } else if c == 'd' {
            if is_last_key(self.last_key, 'd') {
                if self.tui_selection_map.selected("INPUT_WIN") {
                    self.clear_line();
                    self.last_key = None;
                }
            } else {
                self.last_key = Some('d');
            }
        } else if c == 'y' {
            if self.tui_selection_map.selected("RESULT_WIN") {
                self.tui_selection_map.reset_selection();
                self.copy_selected_line();
                self.last_key = None;
            }
        } else if c == 'x' {
            if self.tui_selection_map.selected("INPUT_WIN") {
                self.delete_char_indexed();
                self.last_key = None;
            }
        } else if c == 'J' {
            self.scroll_results_down();
            self.last_key = None;
        } else if c == 'K' {
            self.scroll_results_up();
            self.last_key = None;
        } else if c == 'N' {
            self.scroll_variables_down();
            self.last_key = None;
        } else if c == 'P' {
            self.scroll_variables_up();
            self.last_key = None;
        } else {
            self.last_key = None;
        }
        KeyAction::Continue
    }

    fn normal_key(&mut self, key: Key) -> (a: KeyAction)
        requires
            old(self).wf(),
            key_allowed(old(self)@, key),
            old(self)@.mode == InputMode::Normal,
        ensures
            (final(self)@, a) == normal_key(old(self)@, key),
            final(self).wf(),
    {
        match key {
            Key::Char(c, ctrl) => self.normal_char(c, ctrl),
            Key::Left => {
                self.normal_left();
                KeyAction::Continue
            },
            Key::Right => {
                self.normal_right();
                KeyAction::Continue
            },
            Key::Up => {
                self.normal_up();
                KeyAction::Continue
            },
            Key::Down => {
                self.normal_down();
                KeyAction::Continue
            },
            Key::Esc => {
                self.tui_selection_map.reset_selection();
                if self.tui_selection_map.selected("INPUT_WIN") {
                    self.input = String::new();
                }
                self.reset_cursor();
                self.last_key = None;
                KeyAction::Continue
            },
            Key::Enter => {
                if self.tui_selection_map.selected("INPUT_WIN") {
                    self.last_key = None;
                    KeyAction::Submit
                } else {
                    KeyAction::Continue
                }
            },
            _ => {
                self.last_key = None;
                KeyAction::Continue
            },
        }
    }

    fn insert_key(&mut self, key: Key) -> (a: KeyAction)
        requires
            old(self).wf(),
            old(self)@.mode == InputMode::Insert,
        ensures
            (final(self)@, a) == insert_key(old(self)@, key),
            final(self).wf(),
    {
        match key {
            Key::Char(c, ctrl) => {
                if ctrl && c == 'k' {
                    self.input_mode = InputMode::Normal;
                    self.tui_selection_map.move_up();
                } else if ctrl && c == 'j' {
                    self.input_mode = InputMode::Normal;
                    self.tui_selection_map.move_down();
                } else if ctrl && c == 'h' {
                    self.input_mode = InputMode::Normal;
                    self.tui_selection_map.move_left();
                } else if ctrl && c == 'l' {
                    self.input_mode = InputMode::Normal;
                    self.tui_selection_map.move_right();
                } else {
                    self.enter_char(c);
                }
                KeyAction::Continue
            },
            Key::Enter => KeyAction::Submit,
            Key::Backspace => {
                self.delete_char();
                KeyAction::Continue
            },
            Key::Left => {
                self.move_cursor_left();
                KeyAction::Continue
            },
            Key::Right => {
                self.move_cursor_right();
                KeyAction::Continue
            },
            Key::Up => {
                self.get_previous_history();
                KeyAction::Continue
            },
            Key::Down => {
                self.get_next_history();
                KeyAction::Continue
            },
            Key::Esc => {
                self.input_mode = InputMode::Normal;
                KeyAction::Continue
            },
            Key::Other => KeyAction::Continue,
        }
    }
}

} // verus!

verus! {

/// What an entered line asks of the caller.
pub enum Submission {
    /// Nothing more.
    Done,
    /// Export the kept lines to the file at this path, then `export_finished`.
    Export(String),
    /// Read the file at this path: then `import_failed`, or `imported_entry`
    /// for each entry and `import_finished`.
    Import(String),
    /// Evaluate this line in the session, then `record_evaluation`.
    Evaluate(String),
}

pub enum SubmissionView {
    Done,
    Export(Seq<char>),
    Import(Seq<char>),
    Evaluate(Seq<char>),
}

impl View for Submission {
    type V = SubmissionView;

    open spec fn view(&self) -> SubmissionView {
        match self {
            Submission::Done => SubmissionView::Done,
            Submission::Export(p) => SubmissionView::Export(p@),
            Submission::Import(p) => SubmissionView::Import(p@),
            Submission::Evaluate(t) => SubmissionView::Evaluate(t@),
        }
    }
}

pub open spec fn export_usage() -> Seq<char> {
    "Usage: :w <filename>  —  specify a file to export history to"@
}

pub open spec fn import_usage() -> Seq<char> {
    "Usage: :r <filename>  —  specify a file to import history from"@
}

/// A line with a message added to the results.
pub open spec fn with_result(v: TuiView, m: Seq<char>) -> TuiView {
    TuiView { results: v.results.push(m), ..v }
}

/// The path after a `:w`/`:export` (or `:r`/`:import`) command.
pub open spec fn command_path(t: Seq<char>, short: Seq<char>, long: Seq<char>) -> Seq<char> {
    if crate::chars::starts_with(t, short) {
        crate::chars::trimmed(t.subrange(short.len() as int, t.len() as int))
    } else {
        crate::chars::trimmed(t.subrange(long.len() as int, t.len() as int))
    }
}

/// Entering the line: an empty line and `clear` are handled here, `:w` and
/// `:r` with a path ask for a file to be written or read, and any other line
/// is kept among the typed lines and asked to be evaluated.
pub open spec fn submitted(v: TuiView) -> (TuiView, SubmissionView) {
    let t = v.input;
    if t.len() == 0 {
        (cleared(v), SubmissionView::Done)
    } else if t == "clear"@ {
        (cleared(TuiView { results: seq![], ..v }), SubmissionView::Done)
    } else if crate::chars::starts_with(t, ":w"@) || crate::chars::starts_with(t, ":export"@) {
        let path = command_path(t, ":w"@, ":export"@);
        if path.len() == 0 {
            (cleared(with_result(v, export_usage())), SubmissionView::Done)
        } else {
            (cleared(v), SubmissionView::Export(path))
        }
    } else if crate::chars::starts_with(t, ":r"@) || crate::chars::starts_with(t, ":import"@) {
        let path = command_path(t, ":r"@, ":import"@);
        if path.len() == 0 {
            (cleared(with_result(v, import_usage())), SubmissionView::Done)
        } else {
            (cleared(v), SubmissionView::Import(path))
        }
    } else {
        (TuiView { history: HistoryView { entries: v.history.entries.push(t), index: None }, ..v }, SubmissionView::Evaluate(t))
    }
}

/// A result line `n) expression = value`.
pub open spec fn result_line(n: int, expression: Seq<char>, value: Seq<char>) -> Seq<char> {
    crate::chars::decimal(n as nat) + ") "@ + expression + " = "@ + value
}

impl TuiHandler {
    fn push_result(&mut self, m: Vec<char>)
        ensures
            final(self)@ == with_result(old(self)@, m@),
    {
        let ghost before = self.results@;
        self.results.push(string_of(&m));
        assert(self@.results =~= old(self)@.results.push(m@));
    }

    /// Enters the line (Enter).
    pub fn submit_message(&mut self) -> (s: Submission)
        requires
            old(self).wf(),
        ensures
            (final(self)@, s@) == submitted(old(self)@),
            final(self).wf(),
    {
        let t = self.line();
        proof {
            reveal_strlit(":w");
            reveal_strlit(":export");
            reveal_strlit(":r");
            reveal_strlit(":import");
        }
        if t.len() == 0 {
            self.clear_line();
            return Submission::Done;
        }
        if crate::chars::same_str(&t, "clear") {
            self.results = Vec::new();
            assert(self@.results =~= Seq::<Seq<char>>::empty());
            self.clear_line();
            return Submission::Done;
        }
        let short_w = crate::chars::starts_with_str(&t, ":w");
        if short_w || crate::chars::starts_with_str(&t, ":export") {
            let skip: usize = if short_w { 2 } else { 7 };
            let path = crate::chars::trim(&slice(&t, skip, t.len()));
            if path.len() == 0 {
                self.push_result(chars_of("Usage: :w <filename>  —  specify a file to export history to"));
                self.clear_line();
                return Submission::Done;
            }
            self.clear_line();
            return Submission::Export(string_of(&path));
        }
        let short_r = crate::chars::starts_with_str(&t, ":r");
        if short_r || crate::chars::starts_with_str(&t, ":import") {
            let skip: usize = if short_r { 2 } else { 7 };
            let path = crate::chars::trim(&slice(&t, skip, t.len()));
            if path.len() == 0 {
                self.push_result(chars_of("Usage: :r <filename>  —  specify a file to import history from"));
                self.clear_line();
                return Submission::Done;
            }
            self.clear_line();
            return Submission::Import(string_of(&path));
        }
        self.add_to_history();
        Submission::Evaluate(string_of(&t))
    }

    /// After the export of a `:w`: its outcome is shown.
    pub fn export_finished(&mut self, path: &str, outcome: Result<(), String>)
        ensures
            final(self)@ == with_result(old(self)@, match outcome {
                Ok(_) => "Exported history to "@ + path@,
                Err(e) => "Export error: "@ + e@,
            }),
    {
        let mut m: Vec<char> = Vec::new();
        match outcome {
            Ok(()) => {
                crate::chars::extend_str(&mut m, "Exported history to ");
                crate::chars::extend_str(&mut m, path);
            },
            Err(e) => {
                crate::chars::extend_str(&mut m, "Export error: ");
                crate::chars::extend_str(&mut m, e.as_str());
            },
        }
        self.push_result(m);
    }

    /// The file of a `:r` could not be read.
    pub fn import_failed(&mut self, message: &str)
        ensures
            final(self)@ == with_result(old(self)@, "Import error: "@ + message@),
    {
        let mut m: Vec<char> = Vec::new();
        crate::chars::extend_str(&mut m, "Import error: ");
        crate::chars::extend_str(&mut m, message);
        self.push_result(m);
    }

    /// All entries of the file of a `:r` were evaluated.
    pub fn import_finished(&mut self, path: &str)
        ensures
            final(self)@ == with_result(old(self)@, "Imported history from "@ + path@),
    {
        let mut m: Vec<char> = Vec::new();
        crate::chars::extend_str(&mut m, "Imported history from ");
        crate::chars::extend_str(&mut m, path);
        self.push_result(m);
    }
}

} // verus!

verus! {

/// An entry of an imported file evaluated: its result line and the kept
/// line, or the error.
pub open spec fn entry_recorded(v: TuiView, expression: Seq<char>, outcome: Result<crate::eval::NumberView, crate::error::EvalErrorView>) -> TuiView {
    match outcome {
        Ok(n) => TuiView {
            entries: v.entries.push((expression, n.bits)),
            ..with_result(v, result_line(v.ctx.counter, crate::chars::trimmed(expression), n.text))
        },
        Err(e) => with_result(v, "Import error on '"@ + expression + "': "@ + e.message()),
    }
}

/// The lines of a batch `let`: each recent definition numbered from `start + 1`.
pub open spec fn batch_lines(start: int, recent: Seq<(Seq<char>, Seq<char>)>) -> Seq<Seq<char>> {
    Seq::new(recent.len(), |i: int| result_line(start + i + 1, recent[i].0, recent[i].1))
}

/// The lines an evaluated line adds to the results: for a `let`, the batch
/// definitions, the function, or the variable defined (the last of their
/// maps, a variable shown as `last_variable_text`); for an expression, its
/// line with the result shown as `result_text`; for an error, its message.
pub open spec fn evaluation_lines(
    v: TuiView,
    outcome: Result<crate::eval::NumberView, crate::error::EvalErrorView>,
    result_text: Seq<char>,
    last_variable_text: Seq<char>,
) -> Seq<Seq<char>> {
    let t = v.input;
    let c = v.ctx.counter;
    match outcome {
        Ok(_) => if crate::chars::starts_with(t, "let "@) {
            let rest = t.subrange(4, t.len() as int);
            let lhs = crate::chars::trimmed(rest.subrange(0, crate::chars::first_from(rest, 0, '=')));
            if t.contains('[') && t.last() == ']' {
                batch_lines(c - v.ctx.recently.len(), v.ctx.recently)
            } else if lhs.contains('(') && lhs.contains(')') {
                if v.ctx.funcs.len() > 0 {
                    let f = v.ctx.funcs.last().1;
                    seq![result_line(c, v.ctx.funcs.last().0 + "("@ + f.param + ")"@, f.body)]
                } else {
                    seq![]
                }
            } else if v.ctx.vars.len() > 0 {
                seq![result_line(c, v.ctx.vars.last().0, last_variable_text)]
            } else {
                seq![]
            }
        } else {
            seq![result_line(c, crate::chars::trimmed(t), result_text)]
        },
        Err(e) => seq!["Error: "@ + e.message()],
    }
}

/// After an evaluated line: its lines shown, the last result and the last
/// shown variable selected, the line emptied.
pub open spec fn evaluation_recorded(
    v: TuiView,
    outcome: Result<crate::eval::NumberView, crate::error::EvalErrorView>,
    result_text: Seq<char>,
    last_variable_text: Seq<char>,
) -> TuiView {
    let results = v.results + evaluation_lines(v, outcome, result_text, last_variable_text);
    let shown = shown_count(v.ctx.vars);
    cleared(TuiView {
        results,
        results_selected: if results.len() > 0 { Some(results.len() - 1) } else { v.results_selected },
        variables_selected: if shown > 0 { Some(shown - 1) } else { v.variables_selected },
        ..v
    })
}

/// Recording the lines of a batch `let` needs the line counter to be at
/// least the number of its definitions.
pub open spec fn can_record(v: TuiView, outcome: Result<crate::eval::NumberView, crate::error::EvalErrorView>) -> bool {
    (outcome is Ok && crate::chars::starts_with(v.input, "let "@) && v.input.contains('[') && v.input.last() == ']')
        ==> v.ctx.recently.len() <= v.ctx.counter
}

fn single(line: Vec<char>) -> (r: Vec<Vec<char>>)
    ensures
        r@.map_values(|l: Vec<char>| l@) == seq![line@],
{
    let ghost l = line@;
    let mut r: Vec<Vec<char>> = Vec::new();
    r.push(line);
    assert(r@.map_values(|l: Vec<char>| l@) =~= seq![l]);
    r
}

fn line_of(n: usize, expression: &Vec<char>, value: &Vec<char>) -> (r: Vec<char>)
    ensures
        r@ == result_line(n as int, expression@, value@),
{
    let mut m = crate::chars::decimal_text(n);
    crate::chars::extend_str(&mut m, ") ");
    extend(&mut m, expression);
    crate::chars::extend_str(&mut m, " = ");
    extend(&mut m, value);
    proof {
        reveal_strlit(") ");
        reveal_strlit(" = ");
    }
    assert(m@ =~= result_line(n as int, expression@, value@));
    m
}

impl TuiHandler {
    fn record_entry(&mut self, expression: &str, outcome: &Result<crate::eval::Number, crate::error::EvalError>)
        ensures
            final(self)@ == entry_recorded(old(self)@, expression@, crate::eval::result_view(*outcome)),
            final(self).eval_ctx.counter == old(self).eval_ctx.counter,
            final(self).wf() == old(self).wf(),
    {
        match outcome {
            Ok(n) => {
                let e = chars_of(expression);
                let m = line_of(self.eval_ctx.counter, &crate::chars::trim(&e), &chars_of(n.text.as_str()));
                self.push_result(m);
                let ghost before = self.eval_ctx.history_entries@;
                self.eval_ctx.history_entries.push((expression.to_owned(), n.bits));
                assert(self@.entries =~= old(self)@.entries.push((expression@, n.bits)));
            },
            Err(err) => {
                let mut m: Vec<char> = Vec::new();
                crate::chars::extend_str(&mut m, "Import error on '");
                crate::chars::extend_str(&mut m, expression);
                crate::chars::extend_str(&mut m, "': ");
                crate::chars::extend_str(&mut m, err.to_string().as_str());
                self.push_result(m);
            },
        }
    }

    /// One entry of the file of a `:r`, evaluated by the caller.
    pub fn imported_entry(&mut self, expression: &str, outcome: Result<crate::eval::Number, crate::error::EvalError>)
        requires
            old(self).wf(),
        ensures
            final(self)@ == entry_recorded(old(self)@, expression@, crate::eval::result_view(outcome)),
            final(self).wf(),
    {
        self.record_entry(expression, &outcome);
    }

    /// One entry of the file read at start, evaluated by the caller: as with
    /// `:r`, and the line counter advances once more after a result.
    pub fn preloaded_entry(&mut self, expression: &str, outcome: Result<crate::eval::Number, crate::error::EvalError>)
        requires
            old(self).wf(),
            outcome is Ok ==> old(self).eval_ctx.counter < usize::MAX,
        ensures
            final(self)@ == (match outcome {
                Ok(_) => {
                    let r = entry_recorded(old(self)@, expression@, crate::eval::result_view(outcome));
                    TuiView { ctx: crate::eval_context::CtxView { counter: r.ctx.counter + 1, ..r.ctx }, ..r }
                },
                Err(_) => entry_recorded(old(self)@, expression@, crate::eval::result_view(outcome)),
            }),
            final(self).wf(),
    {
        self.record_entry(expression, &outcome);
        if outcome.is_ok() {
            self.eval_ctx.counter = self.eval_ctx.counter + 1;
        }
    }

    /// The file read at start was evaluated: the last result is selected.
    pub fn preload_finished(&mut self, path: &str)
        ensures
            final(self)@ == (TuiView {
                results_selected: Some(old(self)@.results.len() as int),
                ..with_result(old(self)@, "Imported history from "@ + path@)
            }),
    {
        self.import_finished(path);
        assert(self@.results.len() == self.results@.len());
        self.results_selected = Some(self.results.len() - 1);
    }

    /// The bits of the last variable's value, which a `let` of a variable shows.
    pub fn last_variable_bits(&self) -> (r: Option<u64>)
        ensures
            r == (if self@.ctx.vars.len() > 0 { Some(self@.ctx.vars.last().1) } else { None }),
    {
        let n = crate::maps::var_len(&self.eval_ctx.defined_vars);
        if n == 0 {
            return None;
        }
        match crate::maps::var_get_index(&self.eval_ctx.defined_vars, n - 1) {
            Some((_, bits)) => Some(bits),
            None => None,
        }
    }

    /// After the caller evaluated the line of a `Submission::Evaluate`: its
    /// lines are shown (`result_text` shows the result of an expression,
    /// `last_variable_text` the value of a variable just defined).
    pub fn record_evaluation(
        &mut self,
        outcome: Result<crate::eval::Number, crate::error::EvalError>,
        result_text: &str,
        last_variable_text: &str,
    )
        requires
            old(self).wf(),
            can_record(old(self)@, crate::eval::result_view(outcome)),
        ensures
            final(self)@ == evaluation_recorded(old(self)@, crate::eval::result_view(outcome), result_text@, last_variable_text@),
            final(self).wf(),
    {
        let ghost v = self@;
        let lines = self.evaluation_lines(&outcome, result_text, last_variable_text);
        let mut i: usize = 0;
        while i < lines.len()
            invariant
                i <= lines@.len(),
                self@ == (TuiView { results: v.results + lines@.subrange(0, i as int).map_values(|l: Vec<char>| l@), ..v }),
                self.wf(),
            decreases lines@.len() - i,
        {
            let l = slice(&lines[i], 0, lines[i].len());
            assert(l@ =~= lines@[i as int]@);
            let ghost done = lines@.subrange(0, i as int).map_values(|l: Vec<char>| l@);
            self.push_result(l);
            i = i + 1;
            assert(lines@.subrange(0, i as int).map_values(|l: Vec<char>| l@) =~= done.push(lines@[i as int - 1]@));
            assert((v.results + done).push(lines@[i as int - 1]@) =~= v.results + done.push(lines@[i as int - 1]@));
        }
        assert(lines@.subrange(0, lines@.len() as int) =~= lines@);
        let n = self.results.len();
        if n > 0 {
            self.results_selected = Some(n - 1);
        }
        let shown = self.shown_variables();
        if shown > 0 {
            self.variables_selected = Some(shown - 1);
        }
        self.clear_line();
    }

    fn evaluation_lines(
        &self,
        outcome: &Result<crate::eval::Number, crate::error::EvalError>,
        result_text: &str,
        last_variable_text: &str,
    ) -> (r: Vec<Vec<char>>)
        requires
            self.wf(),
            can_record(self@, crate::eval::result_view(*outcome)),
        ensures
            r@.map_values(|l: Vec<char>| l@) == evaluation_lines(self@, crate::eval::result_view(*outcome), result_text@, last_variable_text@),
    {
        let t = self.line();
        let c = self.eval_ctx.counter;
        let mut out: Vec<Vec<char>> = Vec::new();
        assert(out@.map_values(|l: Vec<char>| l@) =~= Seq::<Seq<char>>::empty());
        proof {
            reveal_strlit("let ");
        }
        match outcome {
            Ok(_) => {
                if crate::chars::starts_with_str(&t, "let ") {
                    let rest = slice(&t, 4, t.len());
                    let eq = crate::chars::find_from(&rest, 0, '=');
                    proof {
                        crate::chars::lemma_first_from(rest@, 0, '=');
                    }
                    let lhs = crate::chars::trim(&slice(&rest, 0, eq));
                    if crate::chars::has_char(&t, '[') && t[t.len() - 1] == ']' {
                        let recent = &self.eval_ctx.recently_assigned;
                        let start = c - recent.len();
                        let mut i: usize = 0;
                        while i < recent.len()
                            invariant
                                i <= recent@.len(),
                                start + recent@.len() == c,
                                self@.ctx.recently == recent@.map_values(|p: (String, String)| (p.0@, p.1@)),
                                out@.map_values(|l: Vec<char>| l@) == batch_lines(start as int, self@.ctx.recently).subrange(0, i as int),
                            decreases recent@.len() - i,
                        {
                            let line = line_of(start + i + 1, &chars_of(recent[i].0.as_str()), &chars_of(recent[i].1.as_str()));
                            let ghost before = out@.map_values(|l: Vec<char>| l@);
                            assert(batch_lines(start as int, self@.ctx.recently)[i as int] == line@);
                            out.push(line);
                            assert(out@.map_values(|l: Vec<char>| l@) =~= before.push(line@));
                            i = i + 1;
                            assert(out@.map_values(|l: Vec<char>| l@) =~= batch_lines(start as int, self@.ctx.recently).subrange(0, i as int));
                        }
                        assert(batch_lines(start as int, self@.ctx.recently).subrange(0, recent@.len() as int) =~= batch_lines(start as int, self@.ctx.recently));
                    } else if crate::chars::has_char(&lhs, '(') && crate::chars::has_char(&lhs, ')') {
                        let n = crate::maps::func_len(&self.eval_ctx.defined_funcs);
                        if n > 0 {
                            match crate::maps::func_get_index(&self.eval_ctx.defined_funcs, n - 1) {
                                Some((name, f)) => {
                                    let mut head = chars_of(name.as_str());
                                    head.push('(');
                                    crate::chars::extend_str(&mut head, f.var_name.as_str());
                                    head.push(')');
                                    proof {
                                        reveal_strlit("(");
                                        reveal_strlit(")");
                                    }
                                    assert(head@ =~= name@ + "("@ + f.var_name@ + ")"@);
                                    out = single(line_of(c, &head, &chars_of(f.expr.as_str())));
                                },
                                None => {},
                            }
                        }
                    } else {
                        let n = crate::maps::var_len(&self.eval_ctx.defined_vars);
                        if n > 0 {
                            match crate::maps::var_get_index(&self.eval_ctx.defined_vars, n - 1) {
                                Some((name, _)) => {
                                    out = single(line_of(c, &chars_of(name.as_str()), &chars_of(last_variable_text)));
                                },
                                None => {},
                            }
                        }
                    }
                } else {
                    out = single(line_of(c, &crate::chars::trim(&t), &chars_of(result_text)));
                }
            },
            Err(e) => {
                let mut m = chars_of("Error: ");
                crate::chars::extend_str(&mut m, e.to_string().as_str());
                out = single(m);
            },
        }
        out
    }
}

} // verus!

verus! {

/// Keys never change the session or the results shown: only entering a line
/// (and the evaluation the caller runs for it) does.
pub proof fn keys_leave_session(v: TuiView, k: Key)
    ensures
        after_key(v, k).0.ctx == v.ctx,
        after_key(v, k).0.entries == v.entries,
        after_key(v, k).0.results == v.results,
        after_key(v, k).0.threshold == v.threshold,
{
}

/// Esc in insert mode only returns to normal mode.
pub proof fn escape_leaves_insert_mode(v: TuiView)
    requires
        v.mode == InputMode::Insert,
    ensures
        after_key(v, Key::Esc) == (TuiView { mode: InputMode::Normal, ..v }, KeyAction::Continue),
{
}

} // verus!

verus! {

/// The smaller of two integers.
pub open spec fn min_of(a: int, b: int) -> int {
    if a <= b { a } else { b }
}

/// In normal mode on the input window, `l` and Right move the cursor one
/// character to the right, stopping at the end of the line, and `h` and
/// Left one to the left, stopping at its start; the line stays as it is. In
/// insert mode, Right and Left do the same.
pub proof fn cursor_keys_move_by_one(v: TuiView)
    requires
        0 <= v.cursor <= usize::MAX,
        v.input.len() <= usize::MAX,
    ensures
        (v.mode == InputMode::Normal && on_window(v, "INPUT_WIN"@)) ==> {
            &&& after_key(v, Key::Char('l', false)).0.input == v.input
            &&& after_key(v, Key::Char('l', false)).0.cursor == min_of(v.cursor + 1, v.input.len() as int)
            &&& after_key(v, Key::Char('l', false)).1 == KeyAction::Continue
            &&& after_key(v, Key::Right).0.input == v.input
            &&& after_key(v, Key::Right).0.cursor == min_of(v.cursor + 1, v.input.len() as int)
            &&& after_key(v, Key::Char('h', false)).0.input == v.input
            &&& after_key(v, Key::Char('h', false)).0.cursor == min_of(if v.cursor > 0 { v.cursor - 1 } else { 0 }, v.input.len() as int)
            &&& after_key(v, Key::Left).0.input == v.input
            &&& after_key(v, Key::Left).0.cursor == min_of(if v.cursor > 0 { v.cursor - 1 } else { 0 }, v.input.len() as int)
        },
        v.mode == InputMode::Insert ==> {
            &&& after_key(v, Key::Right).0.input == v.input
            &&& after_key(v, Key::Right).0.cursor == min_of(v.cursor + 1, v.input.len() as int)
            &&& after_key(v, Key::Left).0.input == v.input
            &&& after_key(v, Key::Left).0.cursor == min_of(if v.cursor > 0 { v.cursor - 1 } else { 0 }, v.input.len() as int)
        },
{
}

} // verus!

verus! {

/// In insert mode a character key (without Control) puts the character at
/// the cursor and moves the cursor after it; Backspace then gives the line
/// and the cursor back.
pub proof fn typing_then_backspace(v: TuiView, c: char)
    requires
        v.mode == InputMode::Insert,
        0 <= v.cursor <= v.input.len(),
        v.cursor < usize::MAX,
    ensures
        after_key(v, Key::Char(c, false)).0.input == v.input.subrange(0, v.cursor) + seq![c] + v.input.subrange(v.cursor, v.input.len() as int),
        after_key(v, Key::Char(c, false)).0.cursor == v.cursor + 1,
        after_key(v, Key::Char(c, false)).1 == KeyAction::Continue,
        after_key(after_key(v, Key::Char(c, false)).0, Key::Backspace).0.input == v.input,
        after_key(after_key(v, Key::Char(c, false)).0, Key::Backspace).0.cursor == v.cursor,
{
    let t = after_key(v, Key::Char(c, false)).0;
    assert(t == typed(v, c));
    let cur = v.cursor;
    assert(t.input.len() == v.input.len() + 1);
    let b = after_key(t, Key::Backspace).0;
    assert(b == backspaced(t));
    assert(t.input.subrange(0, cur) =~= v.input.subrange(0, cur));
    assert(t.input.subrange(cur + 1, t.input.len() as int) =~= v.input.subrange(cur, v.input.len() as int));
    assert(v.input.subrange(0, cur) + v.input.subrange(cur, v.input.len() as int) =~= v.input);
}

} // verus!

verus! {

/// In normal mode on the input window: `x` removes the character under the
/// cursor of an ASCII line and leaves the cursor where it is; `d` pressed
/// twice empties the line and puts the cursor at its start; `i` enters
/// insert mode with line and cursor unchanged, `a` one character further
/// right; `:` starts a new line holding `:` in insert mode; `q` quits and
/// changes nothing.
pub proof fn normal_editing_keys(v: TuiView)
    requires
        v.mode == InputMode::Normal,
        on_window(v, "INPUT_WIN"@),
        0 <= v.cursor < usize::MAX,
    ensures
        (v.cursor < v.input.len() && forall|k: int| 0 <= k < v.input.len() ==> crate::text::is_ascii_char(#[trigger] v.input[k]))
            ==> {
            &&& after_key(v, Key::Char('x', false)).0.input
                == v.input.subrange(0, v.cursor) + v.input.subrange(v.cursor + 1, v.input.len() as int)
            &&& after_key(v, Key::Char('x', false)).0.cursor == v.cursor
        },
        v.last_key != Some('d') ==> {
            &&& after_key(after_key(v, Key::Char('d', false)).0, Key::Char('d', false)).0.input == Seq::<char>::empty()
            &&& after_key(after_key(v, Key::Char('d', false)).0, Key::Char('d', false)).0.cursor == 0
            &&& after_key(after_key(v, Key::Char('d', false)).0, Key::Char('d', false)).0.mode == InputMode::Normal
        },
        after_key(v, Key::Char('i', false)).0.mode == InputMode::Insert,
        after_key(v, Key::Char('i', false)).0.input == v.input,
        after_key(v, Key::Char('i', false)).0.cursor == v.cursor,
        after_key(v, Key::Char('a', false)).0.mode == InputMode::Insert,
        after_key(v, Key::Char('a', false)).0.input == v.input,
        after_key(v, Key::Char('a', false)).0.cursor == min_of(v.cursor + 1, v.input.len() as int),
        after_key(v, Key::Char(':', false)).0.mode == InputMode::Insert,
        after_key(v, Key::Char(':', false)).0.input == seq![':'],
        after_key(v, Key::Char(':', false)).0.cursor == 1,
        after_key(v, Key::Char('q', false)) == (v, KeyAction::Quit),
{
    if v.cursor < v.input.len() && forall|k: int| 0 <= k < v.input.len() ==> crate::text::is_ascii_char(#[trigger] v.input[k]) {
        let pre = v.input.subrange(0, v.cursor);
        assert forall|k: int| 0 <= k < pre.len() implies crate::text::is_ascii_char(#[trigger] pre[k]) by {
            assert(pre[k] == v.input[k]);
        }
        crate::input_handler::lemma_utf8_len_ascii(pre);
    }
    if v.last_key != Some('d') {
        let d1 = after_key(v, Key::Char('d', false)).0;
        assert(d1 == TuiView { last_key: Some('d'), ..v });
        assert(d1.selection == v.selection);
    }
    let c = cleared(v);
    assert(c.input.subrange(0, 0) + seq![':'] + c.input.subrange(0, 0) =~= seq![':']);
}

} // verus!
