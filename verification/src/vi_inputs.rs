//! The history of entered expressions, walked back and forth.
use vstd::prelude::*;

verus! {

/// Entered expressions, oldest first, and the position being looked at
/// (`None`: at the present, not walking the history).
pub struct History {
    history_vec: Vec<String>,
    current_index: Option<usize>,
}

pub struct HistoryView {
    pub entries: Seq<Seq<char>>,
    pub index: Option<int>,
}

impl View for History {
    type V = HistoryView;

    closed spec fn view(&self) -> HistoryView {
        HistoryView {
            entries: self.history_vec@.map_values(|s: String| s@),
            index: match self.current_index {
                Some(i) => Some(i as int),
                None => None,
            },
        }
    }
}

impl HistoryView {
    /// The position, if any, is that of an entry.
    pub open spec fn wf(self) -> bool {
        self.index matches Some(i) ==> 0 <= i < self.entries.len()
    }
}

pub open spec fn entry_at(h: HistoryView, i: int) -> Option<Seq<char>> {
    if 0 <= i < h.entries.len() {
        Some(h.entries[i])
    } else {
        None
    }
}

/// The position after stepping back: the newest entry from the present,
/// one older otherwise, staying at the oldest.
pub open spec fn previous_index(h: HistoryView) -> int {
    match h.index {
        None => h.entries.len() - 1,
        Some(i) => if i == 0 { 0 } else { i - 1 },
    }
}

pub open spec fn opt_str(o: Option<&String>) -> Option<Seq<char>> {
    match o {
        Some(s) => Some(s@),
        None => None,
    }
}

impl History {
    pub fn new() -> (h: Self)
        ensures
            h@.entries.len() == 0,
            h@.index is None,
            h@.wf(),
    {
        let h = Self { history_vec: Vec::new(), current_index: None };
        assert(h@.entries =~= Seq::<Seq<char>>::empty());
        h
    }

    /// Appends an entry and returns to the present.
    pub fn add(&mut self, expr: &String)
        requires
            old(self)@.wf(),
        ensures
            final(self)@.entries == old(self)@.entries.push(expr@),
            final(self)@.wf(),
            final(self)@.index is None,
    {
        let ghost before = self.history_vec@;
        self.history_vec.push(expr.clone());
        self.current_index = None;
        assert(self.history_vec@.map_values(|s: String| s@) =~= before.map_values(|s: String| s@).push(expr@));
    }

    /// Steps back to an older entry and returns it; `None` when there is no
    /// entry.
    pub fn get_previous(&mut self) -> (r: Option<&String>)
        requires
            old(self)@.wf(),
        ensures
            final(self)@.entries == old(self)@.entries,
            final(self)@.wf(),
            old(self)@.entries.len() == 0 ==> r is None && final(self)@.index == old(self)@.index,
            old(self)@.entries.len() > 0 ==> final(self)@.index == Some(previous_index(old(self)@))
                && opt_str(r) == entry_at(old(self)@, previous_index(old(self)@)),
    {
        if self.history_vec.len() == 0 {
            return None;
        }
        let new_index = match self.current_index {
            None => self.history_vec.len() - 1,
            Some(i) => if i == 0 { 0 } else { i - 1 },
        };
        self.current_index = Some(new_index);
        Some(&self.history_vec[new_index])
    }

    /// Steps forward to a newer entry and returns it; from the newest entry
    /// it returns to the present and gives `None`, as it does at the present.
    pub fn get_next(&mut self) -> (r: Option<&String>)
        requires
            old(self)@.wf(),
        ensures
            final(self)@.entries == old(self)@.entries,
            final(self)@.wf(),
            match old(self)@.index {
                None => r is None && final(self)@.index is None,
                Some(i) => if i >= old(self)@.entries.len() - 1 {
                    r is None && final(self)@.index is None
                } else {
                    final(self)@.index == Some(i + 1) && opt_str(r) == entry_at(old(self)@, i + 1)
                },
            },
    {
        match self.current_index {
            None => None,
            Some(i) => {
                if i >= self.history_vec.len() - 1 {
                    self.current_index = None;
                    None
                } else {
                    self.current_index = Some(i + 1);
                    Some(&self.history_vec[i + 1])
                }
            },
        }
    }

    /// The newest entry.
    pub fn get_last(&self) -> (r: Option<&String>)
        ensures
            opt_str(r) == entry_at(self@, self@.entries.len() - 1),
    {
        if self.history_vec.len() == 0 {
            None
        } else {
            Some(&self.history_vec[self.history_vec.len() - 1])
        }
    }

    /// The entry being looked at.
    pub fn current(&self) -> (r: Option<&String>)
        requires
            self@.wf(),
        ensures
            opt_str(r) == match self@.index {
                Some(i) => entry_at(self@, i),
                None => None,
            },
    {
        match self.current_index {
            Some(i) => Some(&self.history_vec[i]),
            None => None,
        }
    }

    /// Returns to the present.
    pub fn reset_navigation(&mut self)
        requires
            old(self)@.wf(),
        ensures
            final(self)@.entries == old(self)@.entries,
            final(self)@.wf(),
            final(self)@.index is None,
    {
        self.current_index = None;
    }
}

} // verus!

verus! {

/// The line just added is the newest entry (the one `get_last` gives), and
/// the first step back from the present reaches it.
pub proof fn added_line_is_newest(h: HistoryView, line: Seq<char>)
    ensures
        ({
            let a = HistoryView { entries: h.entries.push(line), index: None };
            entry_at(a, a.entries.len() - 1) == Some(line) && previous_index(a) == a.entries.len() - 1
        }),
{
}

/// Stepping back from an entry other than the oldest, then forward, comes
/// back to that entry.
pub proof fn back_then_forward(h: HistoryView, i: int)
    requires
        h.wf(),
        h.index == Some(i),
        0 < i,
    ensures
        previous_index(h) == i - 1,
        previous_index(h) < h.entries.len() - 1,
        entry_at(h, previous_index(h) + 1) == entry_at(h, i),
{
}

} // verus!
