//! What the console interface shows, decided from the console state: the
//! completion hint after the cursor, the suggestion rows and page footer, the
//! highlighted history row, and the sync between the state and the widgets.

use crate::model::{CompletionItem, ItemView};
use crate::state::{char_index_at, char_index_at_byte, selected_edit, ConsoleState, StateView};
use crate::text::{
    append_str, byte_pos, cat, chars_of, chars_starts_with, is_prefix, push_char, str_eq,
    string_from_chars, utf8_len,
};
use std::ops::Range;
use vstd::prelude::*;

verus! {

broadcast use vstd::string::group_string_axioms;

/// The decimal digits of `n`.
pub open spec fn decimal(n: nat) -> Seq<char>
    decreases n,
{
    if n < 10 {
        seq![digit(n)]
    } else {
        decimal(n / 10).push(digit(n % 10))
    }
}

/// The digit character of `d` (below ten).
pub open spec fn digit(d: nat) -> char {
    ((d + 48) as u32) as char
}

/// The digit character of `d`, below ten.
fn digit_char(d: usize) -> (c: char)
    requires
        d < 10,
    ensures
        c == digit(d as nat),
{
    let c = ((d as u8) + 48) as char;
    c
}

/// `n` written in decimal.
pub fn decimal_text(n: usize) -> (r: String)
    ensures
        r@ == decimal(n as nat),
    decreases n,
{
    if n < 10 {
        let mut s = String::new();
        push_char(&mut s, digit_char(n));
        assert(s@ =~= seq![digit(n as nat)]);
        s
    } else {
        let mut s = decimal_text(n / 10);
        push_char(&mut s, digit_char(n % 10));
        s
    }
}

/// The completion hint shown after the cursor: when the cursor is at the end
/// of the input, the part of the highlighted candidate's insert text beyond
/// the fragment it replaces, if the text starts with that fragment.
pub open spec fn ghost_text(s: StateView, cursor: Option<usize>) -> Seq<char> {
    if cursor == Some(utf8_len(s.input) as usize) && s.match_index < s.items.len() {
        let item = s.items[s.match_index as int];
        match (
            char_index_at(s.input, item.replace_start as int),
            char_index_at(s.input, item.replace_end as int),
        ) {
            (Some(i), Some(j)) => if item.replace_start <= item.replace_end {
                let fragment = s.input.subrange(i, j);
                if is_prefix(fragment, item.insert_text) {
                    item.insert_text.skip(fragment.len() as int)
                } else {
                    Seq::empty()
                }
            } else {
                Seq::empty()
            },
            _ => Seq::empty(),
        }
    } else {
        Seq::empty()
    }
}

/// The completion hint after the widget's cursor (see [`ghost_text`]).
pub fn ghost_suffix(state: &ConsoleState, widget_cursor: Option<usize>) -> (r: String)
    ensures
        r@ == ghost_text(state@, widget_cursor),
{
    let in_str = state.input.as_str();
    let total = in_str.as_bytes().len();
    proof {
        crate::text::lemma_str_len(in_str);
        assert(in_str@.take(in_str@.len() as int) =~= in_str@);
    }
    if widget_cursor != Some(total) || state.match_index >= state.completion_items.len() {
        return String::new();
    }
    let item = &state.completion_items[state.match_index];
    assert(item@ == state@.items[state.match_index as int]);
    let cs = chars_of(in_str);
    let i = match char_index_at_byte(&cs, item.replace.start, total) {
        Some(i) => i,
        None => {
            return String::new();
        },
    };
    let j = match char_index_at_byte(&cs, item.replace.end, total) {
        Some(j) => j,
        None => {
            return String::new();
        },
    };
    if item.replace.start > item.replace.end {
        return String::new();
    }
    proof {
        if j < i {
            crate::text::lemma_byte_pos_mono(cs@, j as int, i as int);
        }
    }
    let fragment = &cs.as_slice()[i..j];
    let text = chars_of(item.insert_text.as_str());
    if chars_starts_with(text.as_slice(), fragment) {
        string_from_chars(&text.as_slice()[j - i..text.len()])
    } else {
        String::new()
    }
}

/// A suggestion row: the label, and the detail after a dash when there is one.
pub open spec fn row_label(item: ItemView) -> Seq<char> {
    if item.detail.len() == 0 {
        item.label
    } else {
        item.label + " - "@ + item.detail
    }
}

/// The text of a suggestion row (see [`row_label`]).
pub fn dropdown_label(item: &CompletionItem) -> (r: String)
    ensures
        r@ == row_label(item@),
{
    if item.detail.as_str().is_empty() {
        item.label.clone()
    } else {
        let s = cat(item.label.as_str(), " - ");
        cat(s.as_str(), item.detail.as_str())
    }
}

/// The page footer `first-last of total` (one-based).
pub open spec fn footer_text(start: nat, end: nat, total: nat) -> Seq<char> {
    decimal(start + 1) + seq!['-'] + decimal(end) + " of "@ + decimal(total)
}

/// The page footer for rows `page` of `total` candidates (see [`footer_text`]).
pub fn page_footer(page: Range<usize>, total: usize) -> (r: String)
    requires
        page.start < usize::MAX,
    ensures
        r@ == footer_text(page.start as nat, page.end as nat, total as nat),
{
    let mut s = decimal_text(page.start + 1);
    push_char(&mut s, '-');
    let e = decimal_text(page.end);
    append_str(&mut s, e.as_str());
    append_str(&mut s, " of ");
    let t = decimal_text(total);
    append_str(&mut s, t.as_str());
    s
}

/// Whether the suggestion list shows a page footer: there are more candidates
/// than fit on one page.
pub fn shows_page_footer(state: &ConsoleState, max_suggestions: usize) -> (r: bool)
    ensures
        r == (state@.items.len() > max_suggestions),
{
    state.completion_items.len() > max_suggestions
}

/// Whether the output line `line_id` is highlighted: it echoed the command
/// being recalled.
pub fn is_highlighted(state: &ConsoleState, line_id: u64) -> (r: bool)
    ensures
        r == (state.selected_history_line_id_spec() == Some(line_id)),
{
    match state.selected_history_line_id() {
        Some(id) => id == line_id,
        None => false,
    }
}

/// How many rendered rows, oldest first, no longer have a line in the buffer:
/// every row before the first one showing the buffer's oldest line.
pub open spec fn stale_rows(rendered: Seq<u64>, first_id: Option<u64>) -> nat
    decreases rendered.len(),
{
    if rendered.len() == 0 || Some(rendered[0]) == first_id {
        0
    } else {
        1 + stale_rows(rendered.drop_first(), first_id)
    }
}

/// The number of stale rendered rows (see [`stale_rows`]).
pub fn stale_row_count(rendered: &[u64], first_id: Option<u64>) -> (r: usize)
    ensures
        r == stale_rows(rendered@, first_id),
{
    let mut k: usize = 0;
    assert(rendered@.skip(0) =~= rendered@);
    while k < rendered.len() && Some(rendered[k]) != first_id
        invariant
            0 <= k <= rendered@.len(),
            stale_rows(rendered@, first_id) == k + stale_rows(rendered@.skip(k as int), first_id),
        decreases rendered@.len() - k,
    {
        assert(rendered@.skip(k as int).drop_first() =~= rendered@.skip(k + 1));
        assert(rendered@.skip(k as int)[0] == rendered@[k as int]);
        k = k + 1;
    }
    proof {
        if k < rendered@.len() {
            assert(rendered@.skip(k as int)[0] == rendered@[k as int]);
        }
    }
    k
}

impl ConsoleState {
    /// The echo line of the recall entry being browsed (see
    /// [`ConsoleState::selected_history_line_id`]).
    pub open spec fn selected_history_line_id_spec(&self) -> Option<u64> {
        match self@.history_index {
            Some(i) => if i < self@.line_ids.len() {
                self@.line_ids[i as int]
            } else {
                None
            },
            None => None,
        }
    }

    /// The toggle key: an enabled console opens or closes on it; a disabled
    /// one is closed.
    pub fn toggle(&mut self, toggle_pressed: bool)
        ensures
            final(self)@ == (StateView {
                open: if !old(self)@.enabled {
                    false
                } else if toggle_pressed {
                    !old(self)@.open
                } else {
                    old(self)@.open
                },
                ..old(self)@
            }),
    {
        if !self.enabled {
            self.open = false;
            return;
        }
        if toggle_pressed {
            self.open = !self.open;
        }
    }

    /// A click on suggestion row `index`: it is highlighted and accepted,
    /// which ends history browsing. Returns the new cursor; a stale row
    /// (past the candidates) changes nothing.
    pub fn accept_clicked(&mut self, index: usize) -> (r: Option<usize>)
        ensures
            ({
                let o = old(self)@;
                if index >= o.items.len() {
                    r is None && final(self)@ == o
                } else {
                    let chosen = StateView { match_index: index, ..o };
                    match selected_edit(chosen) {
                        Some((s, k)) => {
                            &&& r == Some(byte_pos(s, k) as usize)
                            &&& final(self)@ == (StateView {
                                input: s,
                                completion_cursor: r,
                                dirty: true,
                                history_index: None,
                                draft: Seq::empty(),
                                ..chosen
                            })
                        },
                        None => r is None && final(self)@ == chosen,
                    }
                }
            }),
    {
        if index >= self.completion_items.len() {
            return None;
        }
        self.match_index = index;
        match self.apply_selected_completion() {
            Some(cursor) => {
                self.cmd_history_index = None;
                self.cmd_history_draft = String::new();
                Some(cursor)
            },
            None => None,
        }
    }

    /// Reconciles the state with the text widget, which shows `edited` and
    /// was last given `last_synced`. When they differ and the state's input
    /// changed since, the widget must show the state's input (returned, with
    /// the cursor at its end); otherwise the user edited the widget, so its
    /// text becomes the input and history browsing ends.
    pub fn sync_from_widget(&mut self, edited: String, last_synced: &Option<String>) -> (r: Option<
        (String, usize),
    >)
        ensures
            ({
                let o = old(self)@;
                if edited@ == o.input {
                    r is None && final(self)@ == o
                } else if !(last_synced matches Some(l) && l@ == o.input) {
                    r matches Some((t, c)) && t@ == o.input && c == utf8_len(o.input)
                        && final(self)@ == o
                } else {
                    r is None && final(self)@ == (StateView {
                        input: edited@,
                        dirty: true,
                        history_index: None,
                        draft: Seq::empty(),
                        ..o
                    })
                }
            }),
    {
        if str_eq(edited.as_str(), self.input.as_str()) {
            return None;
        }
        let synced = match last_synced {
            Some(l) => str_eq(l.as_str(), self.input.as_str()),
            None => false,
        };
        if !synced {
            let shown = self.input.clone();
            let st = shown.as_str();
            let n = st.as_bytes().len();
            proof {
                crate::text::lemma_str_len(st);
                assert(st@.take(st@.len() as int) =~= st@);
            }
            return Some((shown, n));
        }
        self.set_input(edited);
        self.cmd_history_index = None;
        self.cmd_history_draft = String::new();
        None
    }
}

} // verus!
