//! The line being typed: cursor movement, editing, and LaTeX names turned
//! into symbols.
use vstd::prelude::*;
use crate::text::{alphanumeric, whitespace, is_alphanumeric, is_whitespace, chars_of, string_of};
use crate::chars::{slice, extend, same_str, has_char};

verus! {

pub open spec fn latex_symbol(w: Seq<char>) -> Option<Seq<char>> {
    if w == "pi"@ {
        Some("π"@)
    } else if w == "alpha"@ {
        Some("α"@)
    } else if w == "beta"@ {
        Some("β"@)
    } else if w == "gamma"@ {
        Some("γ"@)
    } else if w == "delta"@ {
        Some("δ"@)
    } else if w == "epsilon"@ {
        Some("ε"@)
    } else if w == "zeta"@ {
        Some("ζ"@)
    } else if w == "eta"@ {
        Some("η"@)
    } else if w == "theta"@ {
        Some("θ"@)
    } else if w == "iota"@ {
        Some("ι"@)
    } else if w == "kappa"@ {
        Some("κ"@)
    } else if w == "lambda"@ {
        Some("λ"@)
    } else if w == "mu"@ {
        Some("μ"@)
    } else if w == "nu"@ {
        Some("ν"@)
    } else if w == "xi"@ {
        Some("ξ"@)
    } else if w == "omicron"@ {
        Some("ο"@)
    } else if w == "rho"@ {
        Some("ρ"@)
    } else if w == "sigma"@ {
        Some("σ"@)
    } else if w == "tau"@ {
        Some("τ"@)
    } else if w == "upsilon"@ {
        Some("υ"@)
    } else if w == "phi"@ {
        Some("φ"@)
    } else if w == "chi"@ {
        Some("χ"@)
    } else if w == "psi"@ {
        Some("ψ"@)
    } else if w == "omega"@ {
        Some("ω"@)
    } else if w == "Gamma"@ {
        Some("Γ"@)
    } else if w == "Delta"@ {
        Some("Δ"@)
    } else if w == "Theta"@ {
        Some("Θ"@)
    } else if w == "Lambda"@ {
        Some("Λ"@)
    } else if w == "Xi"@ {
        Some("Ξ"@)
    } else if w == "Pi"@ {
        Some("Π"@)
    } else if w == "Sigma"@ {
        Some("Σ"@)
    } else if w == "Phi"@ {
        Some("Φ"@)
    } else if w == "Psi"@ {
        Some("Ψ"@)
    } else if w == "Omega"@ {
        Some("Ω"@)
    } else {
        None
    }
}

/// Maps a LaTeX command name to its Unicode symbol.
pub fn latex_to_unicode_symbol(expression: &str) -> (r: Option<&'static str>)
    ensures
        match r {
            Some(s) => latex_symbol(expression@) == Some(s@),
            None => latex_symbol(expression@) is None,
        },
{
    let w = chars_of(expression);
    if same_str(&w, "pi") {
        return Some("π");
    }
    if same_str(&w, "alpha") {
        return Some("α");
    }
    if same_str(&w, "beta") {
        return Some("β");
    }
    if same_str(&w, "gamma") {
        return Some("γ");
    }
    if same_str(&w, "delta") {
        return Some("δ");
    }
    if same_str(&w, "epsilon") {
        return Some("ε");
    }
    if same_str(&w, "zeta") {
        return Some("ζ");
    }
    if same_str(&w, "eta") {
        return Some("η");
    }
    if same_str(&w, "theta") {
        return Some("θ");
    }
    if same_str(&w, "iota") {
        return Some("ι");
    }
    if same_str(&w, "kappa") {
        return Some("κ");
    }
    if same_str(&w, "lambda") {
        return Some("λ");
    }
    if same_str(&w, "mu") {
        return Some("μ");
    }
    if same_str(&w, "nu") {
        return Some("ν");
    }
    if same_str(&w, "xi") {
        return Some("ξ");
    }
    if same_str(&w, "omicron") {
        return Some("ο");
    }
    if same_str(&w, "rho") {
        return Some("ρ");
    }
    if same_str(&w, "sigma") {
        return Some("σ");
    }
    if same_str(&w, "tau") {
        return Some("τ");
    }
    if same_str(&w, "upsilon") {
        return Some("υ");
    }
    if same_str(&w, "phi") {
        return Some("φ");
    }
    if same_str(&w, "chi") {
        return Some("χ");
    }
    if same_str(&w, "psi") {
        return Some("ψ");
    }
    if same_str(&w, "omega") {
        return Some("ω");
    }
    if same_str(&w, "Gamma") {
        return Some("Γ");
    }
    if same_str(&w, "Delta") {
        return Some("Δ");
    }
    if same_str(&w, "Theta") {
        return Some("Θ");
    }
    if same_str(&w, "Lambda") {
        return Some("Λ");
    }
    if same_str(&w, "Xi") {
        return Some("Ξ");
    }
    if same_str(&w, "Pi") {
        return Some("Π");
    }
    if same_str(&w, "Sigma") {
        return Some("Σ");
    }
    if same_str(&w, "Phi") {
        return Some("Φ");
    }
    if same_str(&w, "Psi") {
        return Some("Ψ");
    }
    if same_str(&w, "Omega") {
        return Some("Ω");
    }
    None
}

/// The number of bytes of `c` in UTF-8.
pub open spec fn char_utf8_len(c: char) -> nat {
    if (c as u32) < 0x80 {
        1
    } else if (c as u32) < 0x800 {
        2
    } else if (c as u32) < 0x10000 {
        3
    } else {
        4
    }
}

/// The number of bytes of `s` in UTF-8.
pub open spec fn utf8_len(s: Seq<char>) -> nat
    decreases s.len(),
{
    if s.len() == 0 {
        0
    } else {
        utf8_len(s.drop_last()) + char_utf8_len(s.last())
    }
}

pub proof fn lemma_utf8_len_ge(s: Seq<char>)
    ensures
        utf8_len(s) >= s.len(),
    decreases s.len(),
{
    if s.len() > 0 {
        lemma_utf8_len_ge(s.drop_last());
    }
}

/// Characters that end a word when moving by words.
pub open spec fn word_boundary(c: char) -> bool {
    whitespace(c) || "+-*/^%()[]{}.,=<>!&|"@.contains(c)
}

/// Characters that make up words.
pub open spec fn word_char(c: char) -> bool {
    alphanumeric(c) || c == '_'
}

pub open spec fn skip_boundaries(c: Seq<char>, p: int) -> int
    decreases c.len() - p,
{
    if p < 0 || p >= c.len() {
        p
    } else if word_boundary(c[p]) {
        skip_boundaries(c, p + 1)
    } else {
        p
    }
}

pub open spec fn skip_word(c: Seq<char>, p: int) -> int
    decreases c.len() - p,
{
    if p < 0 || p >= c.len() {
        p
    } else if word_char(c[p]) {
        skip_word(c, p + 1)
    } else {
        p
    }
}

/// Where `e` puts the cursor: on the last character of the next word.
pub open spec fn end_of_word(c: Seq<char>, cur: int) -> int {
    if cur >= c.len() - 1 {
        c.len() - 1
    } else {
        let p = skip_word(c, skip_boundaries(c, cur + 1));
        let q = if p > 0 { p - 1 } else { p };
        if q < c.len() - 1 { q } else { c.len() - 1 }
    }
}

pub open spec fn back_boundaries(c: Seq<char>, p: int) -> int
    decreases p,
{
    if p > 0 && p < c.len() && word_boundary(c[p]) {
        back_boundaries(c, p - 1)
    } else {
        p
    }
}

pub open spec fn back_word(c: Seq<char>, p: int) -> int
    decreases p,
{
    if p > 0 && p <= c.len() && word_char(c[p - 1]) {
        back_word(c, p - 1)
    } else {
        p
    }
}

/// Where `b` puts the cursor: on the first character of this or the
/// previous word.
pub open spec fn beginning_of_word(c: Seq<char>, cur: int) -> int {
    back_word(c, back_boundaries(c, cur - 1))
}

/// The command name without its leading backslashes.
pub open spec fn strip_backslashes(s: Seq<char>) -> Seq<char>
    decreases s.len(),
{
    if s.len() > 0 && s[0] == '\\' {
        strip_backslashes(s.drop_first())
    } else {
        s
    }
}

/// The line being typed, the cursor (in characters), and the LaTeX command
/// being typed, if one is.
pub struct InputFormat {
    cursor_index: usize,
    input: String,
    latex_str: String,
    latex_arg: bool,
}

pub struct InputFormatView {
    pub cursor: int,
    pub input: Seq<char>,
    pub latex: Seq<char>,
    pub latex_arg: bool,
}

impl View for InputFormat {
    type V = InputFormatView;

    closed spec fn view(&self) -> InputFormatView {
        InputFormatView {
            cursor: self.cursor_index as int,
            input: self.input@,
            latex: self.latex_str@,
            latex_arg: self.latex_arg,
        }
    }
}

impl InputFormatView {
    /// The cursor is within the line.
    pub open spec fn wf(self) -> bool {
        0 <= self.cursor <= self.input.len()
    }

    /// Typing `c` would remove characters from the end of the line (to
    /// replace a LaTeX command): those are all one-byte characters.
    pub open spec fn can_enter(self, c: char) -> bool {
        let arg = self.latex_arg || c == '\\';
        (whitespace(c) && arg && latex_symbol(strip_backslashes(self.latex)) is Some) ==> {
            let k = utf8_len(self.latex);
            forall|i: int| self.input.len() - k <= i < self.input.len() && 0 <= i ==> (#[trigger] self.input[i] as u32) < 0x80
        }
    }
}

/// The state after typing `c`.
pub open spec fn entered(v: InputFormatView, c: char) -> InputFormatView {
    let arg = v.latex_arg || c == '\\';
    if whitespace(c) && arg {
        match latex_symbol(strip_backslashes(v.latex)) {
            Some(sym) => {
                let k = utf8_len(v.latex);
                let m = if k < v.input.len() { k as int } else { v.input.len() as int };
                let inp = v.input.subrange(0, v.input.len() - m);
                let cur = if v.cursor >= m { v.cursor - m } else { 0 };
                InputFormatView {
                    input: inp.subrange(0, cur) + sym + inp.subrange(cur, inp.len() as int),
                    cursor: cur + sym.len(),
                    latex: seq![],
                    latex_arg: false,
                }
            },
            None => InputFormatView { latex: seq![], latex_arg: false, ..v },
        }
    } else {
        InputFormatView {
            input: v.input.subrange(0, v.cursor) + seq![c] + v.input.subrange(v.cursor, v.input.len() as int),
            cursor: v.cursor + 1,
            latex: if arg { v.latex.push(c) } else { v.latex },
            latex_arg: arg,
        }
    }
}

/// The state after Backspace: the character left of the cursor goes, and so
/// does the last character of a LaTeX command being typed.
pub open spec fn deleted(v: InputFormatView) -> InputFormatView {
    if v.cursor == 0 {
        v
    } else {
        InputFormatView {
            input: v.input.subrange(0, v.cursor - 1) + v.input.subrange(v.cursor, v.input.len() as int),
            cursor: v.cursor - 1,
            latex: if v.latex_arg && v.latex.len() > 0 { v.latex.drop_last() } else { v.latex },
            latex_arg: v.latex_arg,
        }
    }
}

/// The state after Delete: the character under the cursor goes when the
/// byte position of the cursor is below the number of characters of the line.
pub open spec fn deleted_at_cursor(v: InputFormatView) -> InputFormatView {
    if utf8_len(v.input.subrange(0, v.cursor)) < v.input.len() {
        InputFormatView {
            input: v.input.subrange(0, v.cursor) + v.input.subrange(v.cursor + 1, v.input.len() as int),
            ..v
        }
    } else {
        v
    }
}

fn utf8_char_len(c: char) -> (r: usize)
    ensures
        r == char_utf8_len(c),
{
    let u = c as u32;
    if u < 0x80 {
        1
    } else if u < 0x800 {
        2
    } else if u < 0x10000 {
        3
    } else {
        4
    }
}

/// The UTF-8 length of the first `upto` characters, saturating at `usize::MAX`.
fn utf8_prefix_len(c: &Vec<char>, upto: usize) -> (r: usize)
    requires
        upto <= c@.len(),
    ensures
        r == if utf8_len(c@.subrange(0, upto as int)) <= usize::MAX {
            utf8_len(c@.subrange(0, upto as int)) as int
        } else {
            usize::MAX as int
        },
{
    let mut total: usize = 0;
    let mut i: usize = 0;
    while i < upto
        invariant
            i <= upto <= c@.len(),
            total == if utf8_len(c@.subrange(0, i as int)) <= usize::MAX {
                utf8_len(c@.subrange(0, i as int)) as int
            } else {
                usize::MAX as int
            },
        decreases upto - i,
    {
        let l = utf8_char_len(c[i]);
        assert(c@.subrange(0, i as int + 1).drop_last() =~= c@.subrange(0, i as int));
        total = total.saturating_add(l);
        i = i + 1;
    }
    total
}

/// The command name with its leading backslashes removed.
fn without_backslashes(c: &Vec<char>) -> (r: Vec<char>)
    ensures
        r@ == strip_backslashes(c@),
{
    let mut i: usize = 0;
    assert(c@.subrange(0, c@.len() as int) =~= c@);
    while i < c.len() && c[i] == '\\'
        invariant
            i <= c@.len(),
            strip_backslashes(c@) == strip_backslashes(c@.subrange(i as int, c@.len() as int)),
        decreases c@.len() - i,
    {
        assert(c@.subrange(i as int, c@.len() as int).drop_first() =~= c@.subrange(i as int + 1, c@.len() as int));
        i = i + 1;
    }
    assert(c@.subrange(0, c@.len() as int) =~= c@);
    slice(c, i, c.len())
}

fn is_word_boundary_char(c: char) -> (b: bool)
    ensures
        b == word_boundary(c),
{
    is_whitespace(c) || has_char(&chars_of("+-*/^%()[]{}.,=<>!&|"), c)
}

fn is_word_char_exec(c: char) -> (b: bool)
    ensures
        b == word_char(c),
{
    is_alphanumeric(c) || c == '_'
}

/// The cursor after `e` in the nonempty line `c`.
pub(crate) fn end_of_word_at(c: &Vec<char>, cursor: usize) -> (r: usize)
    requires
        c@.len() > 0,
    ensures
        r == end_of_word(c@, cursor as int),
        r < c@.len(),
{
    let n = c.len();
    let mut pos = cursor;
    if pos >= n - 1 {
        return n - 1;
    }
    pos = pos + 1;
    let ghost start = pos as int;
    while pos < n && is_word_boundary_char(c[pos])
        invariant
            start <= pos <= n,
            n == c@.len(),
            skip_boundaries(c@, start) == skip_boundaries(c@, pos as int),
        decreases n - pos,
    {
        pos = pos + 1;
    }
    let ghost mid = pos as int;
    while pos < n && is_word_char_exec(c[pos])
        invariant
            mid <= pos <= n,
            n == c@.len(),
            skip_word(c@, mid) == skip_word(c@, pos as int),
        decreases n - pos,
    {
        pos = pos + 1;
    }
    if pos > 0 {
        pos = pos - 1;
    }
    if pos < n - 1 { pos } else { n - 1 }
}

/// The cursor after `b` in the line `c`, from a cursor inside it.
pub(crate) fn beginning_of_word_at(c: &Vec<char>, cursor: usize) -> (r: usize)
    requires
        0 < cursor <= c@.len(),
    ensures
        r == beginning_of_word(c@, cursor as int),
        r < cursor,
{
    let mut pos = cursor - 1;
    let ghost start = pos as int;
    while pos > 0 && is_word_boundary_char(c[pos])
        invariant
            pos <= start,
            start < c@.len(),
            back_boundaries(c@, start) == back_boundaries(c@, pos as int),
        decreases pos,
    {
        pos = pos - 1;
    }
    let ghost mid = pos as int;
    while pos > 0 && is_word_char_exec(c[pos - 1])
        invariant
            pos <= mid,
            mid < c@.len(),
            back_word(c@, mid) == back_word(c@, pos as int),
        decreases pos,
    {
        pos = pos - 1;
    }
    pos
}

impl InputFormat {
    pub fn new() -> (f: Self)
        ensures
            f@.cursor == 0,
            f@.input.len() == 0,
            f@.latex.len() == 0,
            !f@.latex_arg,
            f@.wf(),
    {
        Self { cursor_index: 0, input: String::new(), latex_str: String::new(), latex_arg: false }
    }

    pub fn input(&self) -> (s: &str)
        ensures
            s@ == self@.input,
    {
        self.input.as_str()
    }

    pub fn cursor_index(&self) -> (c: usize)
        ensures
            c as int == self@.cursor,
    {
        self.cursor_index
    }

    /// Replaces the line and puts the cursor at its end.
    pub fn set_input(&mut self, input: String)
        ensures
            final(self)@ == (InputFormatView { input: input@, cursor: input@.len() as int, ..old(self)@ }),
            final(self)@.wf(),
    {
        let c = chars_of(input.as_str());
        self.input = input;
        self.cursor_index = c.len();
    }

    /// Empties the line and forgets any LaTeX command.
    pub fn clear(&mut self)
        ensures
            final(self)@.cursor == 0,
            final(self)@.input.len() == 0,
            final(self)@.latex.len() == 0,
            !final(self)@.latex_arg,
    {
        self.input = String::new();
        self.cursor_index = 0;
        self.latex_str = String::new();
        self.latex_arg = false;
    }

    fn clamp_cursor(&self, new_pos: usize) -> (r: usize)
        ensures
            self@.input.len() <= usize::MAX,
            r == if new_pos <= self@.input.len() { new_pos as int } else { self@.input.len() as int },
    {
        let n = chars_of(self.input.as_str()).len();
        if new_pos <= n { new_pos } else { n }
    }

    /// The byte position of the cursor in the line (saturating at `usize::MAX`).
    pub fn byte_index(&self) -> (r: usize)
        requires
            self@.wf(),
        ensures
            r == if utf8_len(self@.input.subrange(0, self@.cursor)) <= usize::MAX {
                utf8_len(self@.input.subrange(0, self@.cursor)) as int
            } else {
                usize::MAX as int
            },
    {
        let c = chars_of(self.input.as_str());
        utf8_prefix_len(&c, self.cursor_index)
    }

    pub fn move_cursor_left(&mut self)
        requires
            old(self)@.wf(),
        ensures
            final(self)@ == (InputFormatView { cursor: if old(self)@.cursor > 0 { old(self)@.cursor - 1 } else { 0 }, ..old(self)@ }),
            final(self)@.wf(),
    {
        let moved = self.cursor_index.saturating_sub(1);
        self.cursor_index = self.clamp_cursor(moved);
    }

    pub fn move_cursor_right(&mut self)
        requires
            old(self)@.wf(),
        ensures
            final(self)@ == (InputFormatView { cursor: if old(self)@.cursor < old(self)@.input.len() { old(self)@.cursor + 1 } else { old(self)@.cursor }, ..old(self)@ }),
            final(self)@.wf(),
    {
        let moved = self.cursor_index.saturating_add(1);
        self.cursor_index = self.clamp_cursor(moved);
    }

    /// Moves to the last character of the next word.
    pub fn move_to_end_of_word(&mut self)
        requires
            old(self)@.wf(),
        ensures
            final(self)@ == (InputFormatView { cursor: if old(self)@.input.len() == 0 { old(self)@.cursor } else { end_of_word(old(self)@.input, old(self)@.cursor) }, ..old(self)@ }),
            final(self)@.wf(),
    {
        let c = chars_of(self.input.as_str());
        if c.len() == 0 {
            return;
        }
        self.cursor_index = end_of_word_at(&c, self.cursor_index);
    }

    /// Moves to the first character of this or the previous word.
    pub fn move_to_beginning_of_word(&mut self)
        requires
            old(self)@.wf(),
        ensures
            final(self)@ == (InputFormatView { cursor: if old(self)@.input.len() == 0 || old(self)@.cursor == 0 { old(self)@.cursor } else { beginning_of_word(old(self)@.input, old(self)@.cursor) }, ..old(self)@ }),
            final(self)@.wf(),
    {
        let c = chars_of(self.input.as_str());
        if c.len() == 0 || self.cursor_index == 0 {
            return;
        }
        self.cursor_index = beginning_of_word_at(&c, self.cursor_index);
    }

    /// Types `input_char` at the cursor. A backslash starts a LaTeX command;
    /// whitespace ends it, and a known command name is replaced by its symbol.
    pub fn enter_char(&mut self, input_char: char)
        requires
            old(self)@.wf(),
            old(self)@.can_enter(input_char),
        ensures
            final(self)@ == entered(old(self)@, input_char),
            final(self)@.wf(),
    {
        if input_char == '\\' {
            self.latex_arg = true;
        }
        let c = chars_of(self.input.as_str());
        let lat = chars_of(self.latex_str.as_str());
        if is_whitespace(input_char) && self.latex_arg {
            let name = string_of(&without_backslashes(&lat));
            match latex_to_unicode_symbol(name.as_str()) {
                Some(symbol) => {
                    let k = utf8_prefix_len(&lat, lat.len());
                    assert(lat@.subrange(0, lat@.len() as int) =~= lat@);
                    let n = c.len();
                    let m = if k < n { k } else { n };
                    let inp = slice(&c, 0, n - m);
                    let cur = if self.cursor_index >= m { self.cursor_index - m } else { 0 };
                    let sym = chars_of(symbol);
                    let mut out = slice(&inp, 0, cur);
                    extend(&mut out, &sym);
                    let rest = slice(&inp, cur, inp.len());
                    extend(&mut out, &rest);
                    let total = out.len();
                    assert(out@ =~= inp@.subrange(0, cur as int) + sym@ + inp@.subrange(cur as int, inp@.len() as int));
                    self.input = string_of(&out);
                    self.cursor_index = cur + sym.len();
                },
                None => {},
            }
            self.latex_arg = false;
            self.latex_str = String::new();
            return;
        }
        if self.latex_arg {
            let mut l2 = lat;
            l2.push(input_char);
            self.latex_str = string_of(&l2);
        }
        let cur = self.cursor_index;
        let mut out = slice(&c, 0, cur);
        out.push(input_char);
        let rest = slice(&c, cur, c.len());
        extend(&mut out, &rest);
        let total = out.len();
        assert(out@ =~= c@.subrange(0, cur as int) + seq![input_char] + c@.subrange(cur as int, c@.len() as int));
        self.input = string_of(&out);
        self.cursor_index = cur + 1;
    }

    /// Backspace: removes the character left of the cursor.
    pub fn delete_char(&mut self)
        requires
            old(self)@.wf(),
        ensures
            final(self)@ == deleted(old(self)@),
            final(self)@.wf(),
    {
        if self.cursor_index != 0 {
            let c = chars_of(self.input.as_str());
            let cur = self.cursor_index;
            let mut out = slice(&c, 0, cur - 1);
            let rest = slice(&c, cur, c.len());
            extend(&mut out, &rest);
            self.input = string_of(&out);
            self.cursor_index = cur - 1;
            if self.latex_arg {
                let mut lat = chars_of(self.latex_str.as_str());
                if lat.len() > 0 {
                    lat.pop();
                    self.latex_str = string_of(&lat);
                }
            }
        }
    }

    /// Delete: removes the character under the cursor, when the byte position
    /// of the cursor is below the number of characters of the line.
    pub fn delete_char_indexed(&mut self)
        requires
            old(self)@.wf(),
        ensures
            final(self)@ == deleted_at_cursor(old(self)@),
            final(self)@.wf(),
    {
        let index = self.byte_index();
        let c = chars_of(self.input.as_str());
        if index < c.len() {
            proof {
                lemma_utf8_len_ge(c@.subrange(0, self@.cursor));
            }
            let cur = self.cursor_index;
            let mut out = slice(&c, 0, cur);
            let rest = slice(&c, cur + 1, c.len());
            extend(&mut out, &rest);
            self.input = string_of(&out);
        }
    }
}

} // verus!

verus! {

/// Backspace right after typing a character that does not end a LaTeX command
/// gives the line and the cursor back as they were; while a LaTeX command was
/// already being typed, it gives the command back too.
pub proof fn backspace_undoes_typing(v: InputFormatView, c: char)
    requires
        v.wf(),
        !(whitespace(c) && (v.latex_arg || c == '\\')),
    ensures
        deleted(entered(v, c)).input == v.input,
        deleted(entered(v, c)).cursor == v.cursor,
        v.latex_arg ==> deleted(entered(v, c)).latex == v.latex,
{
    let e = entered(v, c);
    assert(e.input.subrange(0, e.cursor - 1) =~= v.input.subrange(0, v.cursor));
    assert(e.input.subrange(e.cursor, e.input.len() as int) =~= v.input.subrange(v.cursor, v.input.len() as int));
    assert(v.input.subrange(0, v.cursor) + v.input.subrange(v.cursor, v.input.len() as int) =~= v.input);
    if v.latex_arg {
        assert(v.latex.push(c).drop_last() =~= v.latex);
    }
}


/// A line of one-byte characters takes one byte per character.
pub proof fn lemma_utf8_len_ascii(s: Seq<char>)
    requires
        forall|k: int| 0 <= k < s.len() ==> crate::text::is_ascii_char(#[trigger] s[k]),
    ensures
        utf8_len(s) == s.len(),
    decreases s.len(),
{
    if s.len() > 0 {
        assert(crate::text::is_ascii_char(s[s.len() - 1]));
        assert forall|k: int| 0 <= k < s.drop_last().len() implies crate::text::is_ascii_char(#[trigger] s.drop_last()[k]) by {
            assert(s.drop_last()[k] == s[k]);
        }
        lemma_utf8_len_ascii(s.drop_last());
    }
}

/// The state after typing the characters of `s` one after another.
pub open spec fn typed_text(v: InputFormatView, s: Seq<char>) -> InputFormatView
    decreases s.len(),
{
    if s.len() == 0 {
        v
    } else {
        entered(typed_text(v, s.drop_last()), s.last())
    }
}

proof fn lemma_typing_appends(v: InputFormatView, s: Seq<char>)
    requires
        v.latex_arg,
        v.cursor == v.input.len(),
        forall|k: int| 0 <= k < s.len() ==> !whitespace(#[trigger] s[k]),
    ensures
        typed_text(v, s) == (InputFormatView {
            input: v.input + s,
            cursor: v.input.len() + s.len() as int,
            latex: v.latex + s,
            latex_arg: true,
        }),
    decreases s.len(),
{
    if s.len() == 0 {
        assert(v.input + s =~= v.input);
        assert(v.latex + s =~= v.latex);
    } else {
        let t = s.drop_last();
        assert forall|k: int| 0 <= k < t.len() implies !whitespace(#[trigger] t[k]) by {
            assert(t[k] == s[k]);
        }
        lemma_typing_appends(v, t);
        assert(!whitespace(s[s.len() - 1]));
        let w = typed_text(v, t);
        assert(w.input.subrange(0, w.cursor) =~= v.input + t);
        assert(w.input.subrange(w.cursor, w.input.len() as int) =~= Seq::<char>::empty());
        assert(v.input + t + seq![s.last()] + Seq::<char>::empty() =~= v.input + s);
        assert((v.latex + t).push(s.last()) =~= v.latex + s);
    }
}

/// Typing a backslash, the name of a LaTeX symbol and a space at the end of
/// the line puts the symbol in place of the name: `\pi` and a space give
/// `π`, with the cursor after it.
pub proof fn latex_name_becomes_symbol(v: InputFormatView, w: Seq<char>, sym: Seq<char>)
    requires
        v.cursor == v.input.len(),
        !v.latex_arg,
        v.latex.len() == 0,
        w.len() > 0,
        forall|k: int| 0 <= k < w.len() ==> crate::text::is_ascii_letter(#[trigger] w[k]),
        latex_symbol(w) == Some(sym),
    ensures
        entered(typed_text(v, seq!['\\'] + w), ' ').input == v.input + sym,
        entered(typed_text(v, seq!['\\'] + w), ' ').cursor == v.input.len() + sym.len(),
        entered(typed_text(v, seq!['\\'] + w), ' ').latex.len() == 0,
        !entered(typed_text(v, seq!['\\'] + w), ' ').latex_arg,
{
    let s = seq!['\\'] + w;
    assert forall|k: int| 0 <= k < w.len() implies !whitespace(#[trigger] w[k]) && crate::text::is_ascii_char(w[k]) by {
        assert(crate::text::is_ascii_letter(w[k]));
    }
    // the backslash
    assert(!whitespace('\\'));
    let v1 = entered(v, '\\');
    assert(v1.input =~= v.input.push('\\'));
    assert(v1.latex =~= seq!['\\']);
    assert(v1.latex_arg);
    // the name
    lemma_typing_appends(v1, w);
    lemma_typed_text_concat(v, seq!['\\'], w);
    assert(typed_text(v, seq!['\\']) == entered(typed_text(v, Seq::<char>::empty()), '\\')) by {
        assert(seq!['\\'].drop_last() =~= Seq::<char>::empty());
    }
    let v2 = typed_text(v, s);
    assert(v2.input == v.input.push('\\') + w);
    assert(v2.latex =~= s);
    // the space
    assert(s.drop_first() =~= w);
    assert(strip_backslashes(w) == w) by {
        assert(w[0] != '\\');
    }
    assert(strip_backslashes(s) == w);
    assert forall|k: int| 0 <= k < s.len() implies crate::text::is_ascii_char(#[trigger] s[k]) by {
        if k > 0 {
            assert(s[k] == w[k - 1]);
        }
    }
    lemma_utf8_len_ascii(s);
    assert(whitespace(' '));
    let m = s.len() as int;
    assert(v2.input.len() == v.input.len() + m);
    assert(v2.input.subrange(0, v2.input.len() - m) =~= v.input);
    let r = entered(v2, ' ');
    assert(r.input =~= v.input.subrange(0, v.input.len() as int) + sym + v.input.subrange(v.input.len() as int, v.input.len() as int));
    assert(v.input.subrange(0, v.input.len() as int) + sym + v.input.subrange(v.input.len() as int, v.input.len() as int) =~= v.input + sym);
}

proof fn lemma_typed_text_concat(v: InputFormatView, a: Seq<char>, b: Seq<char>)
    ensures
        typed_text(v, a + b) == typed_text(typed_text(v, a), b),
    decreases b.len(),
{
    if b.len() == 0 {
        assert(a + b =~= a);
    } else {
        assert((a + b).drop_last() =~= a + b.drop_last());
        assert((a + b).last() == b.last());
        lemma_typed_text_concat(v, a, b.drop_last());
    }
}


/// An ASCII letter or digit.
pub open spec fn ascii_word_char(x: char) -> bool {
    crate::text::is_ascii_letter(x) || crate::text::is_digit(x)
}

proof fn lemma_ascii_word_char(x: char)
    requires
        ascii_word_char(x),
    ensures
        word_char(x),
        !word_boundary(x),
{
    reveal_strlit("+-*/^%()[]{}.,=<>!&|");
    let lit = "+-*/^%()[]{}.,=<>!&|"@;
    assert forall|i: int| 0 <= i < lit.len() implies lit[i] != x by {}
}

proof fn lemma_skip_word_run(c: Seq<char>, p: int, e: int)
    requires
        0 <= p <= e <= c.len(),
        forall|t: int| p <= t < e ==> word_char(#[trigger] c[t]),
        e < c.len() ==> !word_char(c[e]),
    ensures
        skip_word(c, p) == e,
    decreases e - p,
{
    if p < e {
        assert(word_char(c[p]));
        lemma_skip_word_run(c, p + 1, e);
    }
}

proof fn lemma_back_word_run(c: Seq<char>, s: int, p: int)
    requires
        0 <= s <= p <= c.len(),
        forall|t: int| s <= t < p ==> word_char(#[trigger] c[t]),
        s > 0 ==> !word_char(c[s - 1]),
    ensures
        back_word(c, p) == s,
    decreases p - s,
{
    if s < p {
        assert(word_char(c[p - 1]));
        lemma_back_word_run(c, s, p - 1);
    }
}

/// On a line made of two words of ASCII letters and digits with one
/// separating character between them, `e` moves from inside the first word
/// to its last character, and from there to the last character of the
/// second word; `b` moves from inside the second word (after its first
/// character) to its first character, and from there to the first
/// character of the first word.
pub proof fn word_motions(w1: Seq<char>, b: char, w2: Seq<char>, k: int)
    requires
        w1.len() > 0,
        w2.len() > 0,
        forall|i: int| 0 <= i < w1.len() ==> ascii_word_char(#[trigger] w1[i]),
        forall|i: int| 0 <= i < w2.len() ==> ascii_word_char(#[trigger] w2[i]),
        word_boundary(b),
        !word_char(b),
    ensures
        ({
            let c = w1 + seq![b] + w2;
            let n1 = w1.len() as int;
            &&& (0 <= k < n1 - 1 ==> end_of_word(c, k) == n1 - 1)
            &&& end_of_word(c, n1 - 1) == c.len() - 1
            &&& (n1 + 1 < k <= c.len() ==> beginning_of_word(c, k) == n1 + 1)
            &&& beginning_of_word(c, n1 + 1) == 0
        }),
{
    let c = w1 + seq![b] + w2;
    let n1 = w1.len() as int;
    assert(c[n1] == b);
    assert forall|t: int| 0 <= t < n1 implies word_char(#[trigger] c[t]) && !word_boundary(c[t]) by {
        assert(c[t] == w1[t]);
        lemma_ascii_word_char(w1[t]);
    }
    assert forall|t: int| n1 + 1 <= t < c.len() implies word_char(#[trigger] c[t]) && !word_boundary(c[t]) by {
        assert(c[t] == w2[t - n1 - 1]);
        lemma_ascii_word_char(w2[t - n1 - 1]);
    }
    // `e` inside the first word
    if 0 <= k < n1 - 1 {
        assert(skip_boundaries(c, k + 1) == k + 1);
        lemma_skip_word_run(c, k + 1, n1);
    }
    // `e` at the end of the first word
    assert(skip_boundaries(c, n1 + 1) == n1 + 1);
    assert(skip_boundaries(c, n1) == n1 + 1);
    lemma_skip_word_run(c, n1 + 1, c.len() as int);
    // `b` inside the second word
    if n1 + 1 < k <= c.len() {
        assert(back_boundaries(c, k - 1) == k - 1);
        lemma_back_word_run(c, n1 + 1, k - 1);
    }
    // `b` at the start of the second word
    assert(back_boundaries(c, n1 - 1) == n1 - 1);
    assert(back_boundaries(c, n1) == n1 - 1);
    lemma_back_word_run(c, 0, n1 - 1);
}

} // verus!
