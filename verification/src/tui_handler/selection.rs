//! Which window of the terminal interface is selected. The windows are laid
//! out on a grid of names, row 0 at the bottom; a window that spans several
//! cells has its name in each of them, and moving skips over them.
use vstd::prelude::*;
use crate::text::{chars_of, string_of};
use crate::chars::same;

verus! {

/// The direction of the last move of the selection.
pub enum LastMove {
    UP,
    DOWN,
    RIGHT,
    LEFT,
    NONE,
}

/// The grid of window names and the selected cell `(column, row)`.
pub struct TuiSelectionMap {
    width: usize,
    height: usize,
    pub curr_pos: (usize, usize),
    pub layout: Vec<Vec<&'static str>>,
    last_win: String,
    last_move: LastMove,
}

pub struct SelectionView {
    pub width: int,
    pub height: int,
    pub pos: (int, int),
    pub layout: Seq<Seq<Seq<char>>>,
    pub last_win: Seq<char>,
    pub last_move: LastMove,
}

pub open spec fn layout_view(l: Seq<Vec<&'static str>>) -> Seq<Seq<Seq<char>>> {
    l.map_values(|row: Vec<&'static str>| row@.map_values(|w: &'static str| w@))
}

impl View for TuiSelectionMap {
    type V = SelectionView;

    closed spec fn view(&self) -> SelectionView {
        SelectionView {
            width: self.width as int,
            height: self.height as int,
            pos: (self.curr_pos.0 as int, self.curr_pos.1 as int),
            layout: layout_view(self.layout@),
            last_win: self.last_win@,
            last_move: self.last_move,
        }
    }
}

impl SelectionView {
    /// The grid has `height` rows of `width` names and the selected cell is on it.
    pub open spec fn wf(self) -> bool {
        &&& 1 <= self.width
        &&& 1 <= self.height
        &&& self.layout.len() == self.height
        &&& forall|y: int| 0 <= y < self.height ==> (#[trigger] self.layout[y]).len() == self.width
        &&& 0 <= self.pos.0 < self.width
        &&& 0 <= self.pos.1 < self.height
    }

    /// The name of the window at column `x`, row `y`.
    pub open spec fn cell(self, x: int, y: int) -> Seq<char> {
        self.layout[y][x]
    }

    /// The name of the selected window.
    pub open spec fn selected_window(self) -> Seq<char> {
        self.cell(self.pos.0, self.pos.1)
    }

    /// The state after a move to `m.0`, reported as `m.1`.
    pub open spec fn moved(self, m: ((int, int), LastMove)) -> SelectionView {
        SelectionView { pos: m.0, last_move: m.1, ..self }
    }
}

/// Going up column `x` from row `y` over cells named `w`.
pub open spec fn skip_up(v: SelectionView, x: int, y: int, w: Seq<char>) -> int
    decreases v.height - y,
{
    if 0 <= y < v.height - 1 && v.cell(x, y) == w {
        skip_up(v, x, y + 1, w)
    } else {
        y
    }
}

/// Going down column `x` from row `y` over cells named `w`.
pub open spec fn skip_down(v: SelectionView, x: int, y: int, w: Seq<char>) -> int
    decreases y,
{
    if 0 < y && v.cell(x, y) == w {
        skip_down(v, x, y - 1, w)
    } else {
        y
    }
}

/// Going left along row `y` from column `x` over cells named `w`.
pub open spec fn skip_left(v: SelectionView, x: int, y: int, w: Seq<char>) -> int
    decreases x,
{
    if 0 < x && v.cell(x, y) == w {
        skip_left(v, x - 1, y, w)
    } else {
        x
    }
}

/// Going right along row `y` from column `x` over cells named `w`.
pub open spec fn skip_right(v: SelectionView, x: int, y: int, w: Seq<char>) -> int
    decreases v.width - x,
{
    if 0 <= x < v.width - 1 && v.cell(x, y) == w {
        skip_right(v, x + 1, y, w)
    } else {
        x
    }
}

/// Up: to the next window above; past the top, to the bottom of the next
/// column to the right.
pub open spec fn moved_up(v: SelectionView) -> ((int, int), LastMove) {
    let (x, y) = v.pos;
    let w = v.cell(x, y);
    if y < v.height - 1 {
        let y2 = skip_up(v, x, y + 1, w);
        if v.cell(x, y2) == w {
            if x < v.width - 1 {
                ((x + 1, 0), LastMove::RIGHT)
            } else {
                ((x, y2 - 1), LastMove::NONE)
            }
        } else {
            ((x, y2), LastMove::UP)
        }
    } else if x < v.width - 1 {
        ((x + 1, 0), LastMove::RIGHT)
    } else {
        ((x, y), LastMove::NONE)
    }
}

/// Down: to the next window below; past the bottom, to the top of the next
/// column to the left.
pub open spec fn moved_down(v: SelectionView) -> ((int, int), LastMove) {
    let (x, y) = v.pos;
    let w = v.cell(x, y);
    if y > 0 {
        let y2 = skip_down(v, x, y - 1, w);
        if v.cell(x, y2) == w {
            if x > 0 {
                ((x - 1, v.height - 1), LastMove::LEFT)
            } else {
                ((x, y2 + 1), LastMove::NONE)
            }
        } else {
            ((x, y2), LastMove::DOWN)
        }
    } else if x > 0 {
        ((x - 1, v.height - 1), LastMove::LEFT)
    } else {
        ((x, y), LastMove::NONE)
    }
}

/// Left: to the next window to the left; past the edge, to the right end of
/// the row below.
pub open spec fn moved_left(v: SelectionView) -> ((int, int), LastMove) {
    let (x, y) = v.pos;
    let w = v.cell(x, y);
    if x > 0 {
        let x2 = skip_left(v, x - 1, y, w);
        if v.cell(x2, y) == w {
            if y > 0 {
                ((v.width - 1, y - 1), LastMove::DOWN)
            } else {
                ((x2 + 1, y), LastMove::NONE)
            }
        } else {
            ((x2, y), LastMove::LEFT)
        }
    } else if y > 0 {
        ((v.width - 1, y - 1), LastMove::DOWN)
    } else {
        ((x, y), LastMove::NONE)
    }
}

/// Right: to the next window to the right; past the edge, to the left end
/// of the row above.
pub open spec fn moved_right(v: SelectionView) -> ((int, int), LastMove) {
    let (x, y) = v.pos;
    let w = v.cell(x, y);
    if x < v.width - 1 {
        let x2 = skip_right(v, x + 1, y, w);
        if v.cell(x2, y) == w {
            if y < v.height - 1 {
                ((0, y + 1), LastMove::UP)
            } else {
                ((x2 - 1, y), LastMove::NONE)
            }
        } else {
            ((x2, y), LastMove::RIGHT)
        }
    } else if y < v.height - 1 {
        ((0, y + 1), LastMove::UP)
    } else {
        ((x, y), LastMove::NONE)
    }
}

/// The layout of the calculator: the input line across the bottom, the
/// results on the left, variables and functions on the right; the bottom-left
/// cell selected.
pub open spec fn initial_selection() -> SelectionView {
    SelectionView {
        width: 2,
        height: 3,
        pos: (0, 0),
        layout: seq![
            seq!["INPUT_WIN"@, "INPUT_WIN"@],
            seq!["RESULT_WIN"@, "VARIABLE_WIN"@],
            seq!["RESULT_WIN"@, "FUNCTION_WIN"@],
        ],
        last_win: seq![],
        last_move: LastMove::NONE,
    }
}

proof fn lemma_skip_up(v: SelectionView, x: int, y: int, w: Seq<char>)
    requires
        0 <= y < v.height,
    ensures
        y <= skip_up(v, x, y, w) < v.height,
    decreases v.height - y,
{
    if 0 <= y < v.height - 1 && v.cell(x, y) == w {
        lemma_skip_up(v, x, y + 1, w);
    }
}

proof fn lemma_skip_down(v: SelectionView, x: int, y: int, w: Seq<char>)
    requires
        0 <= y,
    ensures
        0 <= skip_down(v, x, y, w) <= y,
    decreases y,
{
    if 0 < y && v.cell(x, y) == w {
        lemma_skip_down(v, x, y - 1, w);
    }
}

proof fn lemma_skip_left(v: SelectionView, x: int, y: int, w: Seq<char>)
    requires
        0 <= x,
    ensures
        0 <= skip_left(v, x, y, w) <= x,
    decreases x,
{
    if 0 < x && v.cell(x, y) == w {
        lemma_skip_left(v, x - 1, y, w);
    }
}

proof fn lemma_skip_right(v: SelectionView, x: int, y: int, w: Seq<char>)
    requires
        0 <= x < v.width,
    ensures
        x <= skip_right(v, x, y, w) < v.width,
    decreases v.width - x,
{
    if 0 <= x < v.width - 1 && v.cell(x, y) == w {
        lemma_skip_right(v, x + 1, y, w);
    }
}

impl TuiSelectionMap {
    /// The layout of the calculator, with the bottom-left cell selected.
    pub fn new() -> (m: Self)
        ensures
            m@ == initial_selection(),
            m@.wf(),
    {
        let mut bottom: Vec<&'static str> = Vec::new();
        bottom.push("INPUT_WIN");
        bottom.push("INPUT_WIN");
        let mut middle: Vec<&'static str> = Vec::new();
        middle.push("RESULT_WIN");
        middle.push("VARIABLE_WIN");
        let mut top: Vec<&'static str> = Vec::new();
        top.push("RESULT_WIN");
        top.push("FUNCTION_WIN");
        let mut layout: Vec<Vec<&'static str>> = Vec::new();
        layout.push(bottom);
        layout.push(middle);
        layout.push(top);
        let m = Self {
            width: 2,
            height: 3,
            curr_pos: (0, 0),
            layout,
            last_win: String::new(),
            last_move: LastMove::NONE,
        };
        assert(m@.layout[0] =~= seq!["INPUT_WIN"@, "INPUT_WIN"@]);
        assert(m@.layout[1] =~= seq!["RESULT_WIN"@, "VARIABLE_WIN"@]);
        assert(m@.layout[2] =~= seq!["RESULT_WIN"@, "FUNCTION_WIN"@]);
        assert(m@.layout =~= initial_selection().layout);
        assert(m@.last_win =~= initial_selection().last_win);
        m
    }

    /// The characters of the window name at column `x`, row `y`.
    fn cell_chars(&self, x: usize, y: usize) -> (r: Vec<char>)
        requires
            self@.wf(),
            x < self@.width,
            y < self@.height,
        ensures
            r@ == self@.cell(x as int, y as int),
    {
        assert(self@.layout[y as int].len() == self@.width);
        assert(self@.layout[y as int] == self.layout@[y as int]@.map_values(|w: &'static str| w@));
        chars_of(self.layout[y][x])
    }

    /// Selects the next window above.
    pub fn move_up(&mut self)
        requires
            old(self)@.wf(),
        ensures
            final(self)@ == old(self)@.moved(moved_up(old(self)@)),
            final(self)@.wf(),
            final(self)@.last_move == LastMove::UP ==> final(self)@.selected_window() != old(self)@.selected_window(),
    {
        let ghost v = self@;
        let x = self.curr_pos.0;
        let y0 = self.curr_pos.1;
        let start = self.cell_chars(x, y0);
        if y0 < self.height - 1 {
            let mut y = y0 + 1;
            while y < self.height - 1 && same(&self.cell_chars(x, y), &start)
                invariant
                    self@ == v,
                    v.wf(),
                    x == v.pos.0,
                    y0 == v.pos.1,
                    start@ == v.cell(x as int, y0 as int),
                    y0 + 1 <= y <= v.height - 1,
                    skip_up(v, x as int, y0 + 1, start@) == skip_up(v, x as int, y as int, start@),
                decreases v.height - y,
            {
                y = y + 1;
            }
            if same(&self.cell_chars(x, y), &start) {
                if x < self.width - 1 {
                    self.curr_pos = (x + 1, 0);
                    self.last_move = LastMove::RIGHT;
                } else {
                    self.curr_pos = (x, y - 1);
                    self.last_move = LastMove::NONE;
                }
            } else {
                self.curr_pos = (x, y);
                self.last_move = LastMove::UP;
            }
        } else if x < self.width - 1 {
            self.curr_pos = (x + 1, 0);
            self.last_move = LastMove::RIGHT;
        } else {
            self.last_move = LastMove::NONE;
        }
    }

    /// Selects the next window below.
    pub fn move_down(&mut self)
        requires
            old(self)@.wf(),
        ensures
            final(self)@ == old(self)@.moved(moved_down(old(self)@)),
            final(self)@.wf(),
            final(self)@.last_move == LastMove::DOWN ==> final(self)@.selected_window() != old(self)@.selected_window(),
    {
        let ghost v = self@;
        let x = self.curr_pos.0;
        let y0 = self.curr_pos.1;
        let start = self.cell_chars(x, y0);
        if y0 > 0 {
            let mut y = y0 - 1;
            while y > 0 && same(&self.cell_chars(x, y), &start)
                invariant
                    self@ == v,
                    v.wf(),
                    x == v.pos.0,
                    y0 == v.pos.1,
                    start@ == v.cell(x as int, y0 as int),
                    y < y0,
                    skip_down(v, x as int, y0 - 1, start@) == skip_down(v, x as int, y as int, start@),
                decreases y,
            {
                y = y - 1;
            }
            if same(&self.cell_chars(x, y), &start) {
                if x > 0 {
                    self.curr_pos = (x - 1, self.height - 1);
                    self.last_move = LastMove::LEFT;
                } else {
                    self.curr_pos = (x, y + 1);
                    self.last_move = LastMove::NONE;
                }
            } else {
                self.curr_pos = (x, y);
                self.last_move = LastMove::DOWN;
            }
        } else if x > 0 {
            self.curr_pos = (x - 1, self.height - 1);
            self.last_move = LastMove::LEFT;
        } else {
            self.last_move = LastMove::NONE;
        }
    }

    /// Selects the next window to the left.
    pub fn move_left(&mut self)
        requires
            old(self)@.wf(),
        ensures
            final(self)@ == old(self)@.moved(moved_left(old(self)@)),
            final(self)@.wf(),
            final(self)@.last_move == LastMove::LEFT ==> final(self)@.selected_window() != old(self)@.selected_window(),
    {
        let ghost v = self@;
        let x0 = self.curr_pos.0;
        let y = self.curr_pos.1;
        let start = self.cell_chars(x0, y);
        if x0 > 0 {
            let mut x = x0 - 1;
            while x > 0 && same(&self.cell_chars(x, y), &start)
                invariant
                    self@ == v,
                    v.wf(),
                    x0 == v.pos.0,
                    y == v.pos.1,
                    start@ == v.cell(x0 as int, y as int),
                    x < x0,
                    skip_left(v, x0 - 1, y as int, start@) == skip_left(v, x as int, y as int, start@),
                decreases x,
            {
                x = x - 1;
            }
            if same(&self.cell_chars(x, y), &start) {
                if y > 0 {
                    self.curr_pos = (self.width - 1, y - 1);
                    self.last_move = LastMove::DOWN;
                } else {
                    self.curr_pos = (x + 1, y);
                    self.last_move = LastMove::NONE;
                }
            } else {
                self.curr_pos = (x, y);
                self.last_move = LastMove::LEFT;
            }
        } else if y > 0 {
            self.curr_pos = (self.width - 1, y - 1);
            self.last_move = LastMove::DOWN;
        } else {
            self.last_move = LastMove::NONE;
        }
    }

    /// Selects the next window to the right.
    pub fn move_right(&mut self)
        requires
            old(self)@.wf(),
        ensures
            final(self)@ == old(self)@.moved(moved_right(old(self)@)),
            final(self)@.wf(),
            final(self)@.last_move == LastMove::RIGHT ==> final(self)@.selected_window() != old(self)@.selected_window(),
    {
        let ghost v = self@;
        let x0 = self.curr_pos.0;
        let y = self.curr_pos.1;
        let start = self.cell_chars(x0, y);
        if x0 < self.width - 1 {
            let mut x = x0 + 1;
            while x < self.width - 1 && same(&self.cell_chars(x, y), &start)
                invariant
                    self@ == v,
                    v.wf(),
                    x0 == v.pos.0,
                    y == v.pos.1,
                    start@ == v.cell(x0 as int, y as int),
                    x0 + 1 <= x <= v.width - 1,
                    skip_right(v, x0 + 1, y as int, start@) == skip_right(v, x as int, y as int, start@),
                decreases v.width - x,
            {
                x = x + 1;
            }
            if same(&self.cell_chars(x, y), &start) {
                if y < self.height - 1 {
                    self.curr_pos = (0, y + 1);
                    self.last_move = LastMove::UP;
                } else {
                    self.curr_pos = (x - 1, y);
                    self.last_move = LastMove::NONE;
                }
            } else {
                self.curr_pos = (x, y);
                self.last_move = LastMove::RIGHT;
            }
        } else if y < self.height - 1 {
            self.curr_pos = (0, y + 1);
            self.last_move = LastMove::UP;
        } else {
            self.last_move = LastMove::NONE;
        }
    }

    /// The selected cell `(column, row)`.
    pub fn get_pos(&self) -> (p: (usize, usize))
        ensures
            (p.0 as int, p.1 as int) == self@.pos,
    {
        self.curr_pos
    }

    /// The name of the selected window, which is also remembered.
    pub fn update_selection(&mut self) -> (w: &'static str)
        requires
            old(self)@.wf(),
        ensures
            w@ == old(self)@.selected_window(),
            final(self)@ == (SelectionView { last_win: w@, ..old(self)@ }),
    {
        let (x, y) = self.curr_pos;
        assert(self@.layout[y as int].len() == self@.width);
        assert(self@.layout[y as int] == self.layout@[y as int]@.map_values(|w: &'static str| w@));
        let w = self.layout[y][x];
        self.last_win = string_of(&chars_of(w));
        w
    }

    /// Whether `window` is the selected window.
    pub fn selected(&mut self, window: &'static str) -> (b: bool)
        requires
            old(self)@.wf(),
        ensures
            b == (old(self)@.selected_window() == window@),
            final(self)@ == (SelectionView { last_win: old(self)@.selected_window(), ..old(self)@ }),
    {
        let w = self.update_selection();
        same(&chars_of(w), &chars_of(window))
    }

    /// Selects the bottom-left cell.
    pub fn reset_selection(&mut self)
        ensures
            final(self)@ == (SelectionView { pos: (0int, 0int), ..old(self)@ }),
    {
        self.curr_pos = (0, 0)
    }
}

} // verus!

verus! {

/// Where the neighbouring cell holds another window, a move goes to it and
/// is reported in its own direction.
pub proof fn moves_reach_neighbouring_windows(v: SelectionView)
    requires
        v.wf(),
    ensures
        (v.pos.1 < v.height - 1 && v.cell(v.pos.0, v.pos.1 + 1) != v.selected_window())
            ==> moved_up(v) == ((v.pos.0, v.pos.1 + 1), LastMove::UP),
        (v.pos.1 > 0 && v.cell(v.pos.0, v.pos.1 - 1) != v.selected_window())
            ==> moved_down(v) == ((v.pos.0, v.pos.1 - 1), LastMove::DOWN),
        (v.pos.0 > 0 && v.cell(v.pos.0 - 1, v.pos.1) != v.selected_window())
            ==> moved_left(v) == ((v.pos.0 - 1, v.pos.1), LastMove::LEFT),
        (v.pos.0 < v.width - 1 && v.cell(v.pos.0 + 1, v.pos.1) != v.selected_window())
            ==> moved_right(v) == ((v.pos.0 + 1, v.pos.1), LastMove::RIGHT),
        (v.pos.1 == v.height - 1 && v.pos.0 == v.width - 1) ==> moved_up(v) == (v.pos, LastMove::NONE),
        (v.pos.1 == 0 && v.pos.0 == 0) ==> moved_down(v) == (v.pos, LastMove::NONE),
{
}

} // verus!
