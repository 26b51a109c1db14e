//! The interactive picker's decisions, as a state machine: what each key
//! does to the filter, the search text and the selection, which theme a
//! frame shows and previews, the texts the picker displays, and what happens
//! to the theme file when the picker closes.

use vstd::prelude::*;
use crate::text::{append_str, lowercase, pop_char, push_char, string_text};
use crate::theme::{filter_label, filter_themes, is_selection, next_filter, Theme, ThemeFilter};

verus! {

broadcast use vstd::seq_lib::group_seq_properties;

/// A key press, as far as the picker tells keys apart.
#[derive(PartialEq, Eq, Structural, Clone, Copy, Debug)]
pub enum Key {
    Char(char),
    Up,
    Down,
    Home,
    End,
    Enter,
    Esc,
    Backspace,
    Other,
}

/// What the picker asks of its caller after a key.
#[derive(PartialEq, Eq, Structural, Clone, Copy, Debug)]
pub enum PickerAction {
    /// Keep going.
    Continue,
    /// The user chose the theme at this position of the theme list.
    Confirm(usize),
    /// The user cancelled.
    Cancel,
}

/// How applying a preview went.
#[derive(Clone, Debug)]
pub enum PreviewOutcome {
    /// The theme file was written and Ghostty acknowledged the reload signal.
    Acknowledged,
    /// The theme file was written but the reload signal was not acknowledged.
    NotAcknowledged,
    /// The theme file was written but signalling Ghostty failed with this error.
    ReloadFailed(String),
    /// Writing the theme file failed with this error.
    ApplyFailed(String),
}

/// What to do with the theme file when the picker closes.
#[derive(Clone, Debug)]
pub enum ExitPlan {
    /// Write the theme at this position of the theme list and signal Ghostty.
    Apply(usize),
    /// Write back the theme that was active before the picker started.
    Restore(String),
    /// Remove the theme file, as there was none before.
    Clear,
    /// Leave everything as it is.
    Nothing,
}

/// The part of the picker's state that keys change.
pub struct PickerModel {
    pub filter: ThemeFilter,
    pub search: Seq<char>,
    pub search_active: bool,
    pub selected: Option<usize>,
}

/// The picker's state.
pub struct Picker {
    pub filter: ThemeFilter,
    pub search: String,
    /// Whether keys edit the search text.
    pub search_active: bool,
    /// Position in `filtered` of the selected entry, as a list widget keeps
    /// it: it may lie past the end until the next frame brings it back.
    pub selected: Option<usize>,
    /// Positions in the theme list of the themes listed.
    pub filtered: Vec<usize>,
    /// Whether some preview has been written to the theme file.
    pub preview_applied: bool,
    /// Name of the theme last previewed.
    pub previewed: Option<String>,
    /// Warning shown in the footer about the last preview.
    pub warning: Option<String>,
}

pub open spec fn text_of(s: Option<String>) -> Option<Seq<char>> {
    match s {
        Some(t) => Some(t@),
        None => None,
    }
}

/// `ListState::select_next`: one down, saturating; the first entry when
/// nothing is selected.
pub open spec fn step_down(selected: Option<usize>) -> usize {
    match selected {
        None => 0,
        Some(i) => if i == usize::MAX {
            i
        } else {
            (i + 1) as usize
        },
    }
}

/// `ListState::select_previous`: one up, saturating; the last entry (written
/// as `usize::MAX`) when nothing is selected.
pub open spec fn step_up(selected: Option<usize>) -> usize {
    match selected {
        None => usize::MAX,
        Some(i) => if i == 0 {
            0
        } else {
            (i - 1) as usize
        },
    }
}

/// The search text after a key typed while searching.
pub open spec fn edit_search(search: Seq<char>, key: Key) -> Seq<char> {
    match key {
        Key::Backspace => if search.len() > 0 {
            search.drop_last()
        } else {
            search
        },
        Key::Char(c) => search.push(c),
        _ => search,
    }
}

/// What a key does.  While searching, Esc, Enter and `/` end the search
/// (so `/` toggles search mode), Backspace deletes the last character and
/// other characters are typed.
/// Otherwise `j`/Down and `k`/Up move the selection, `g`/Home and `G`/End
/// jump to the first and last entry, `f` switches the filter, `/` starts a
/// search, Backspace clears the search text, Enter/`y`/`Y` choose the
/// selected entry when there is one, and `q`/Esc cancel.
pub open spec fn key_transition(m: PickerModel, filtered: Seq<usize>, key: Key) -> (
    PickerModel,
    PickerAction,
) {
    if m.search_active {
        if key == Key::Esc || key == Key::Enter || key == Key::Char('/') {
            (PickerModel { search_active: false, ..m }, PickerAction::Continue)
        } else {
            (PickerModel { search: edit_search(m.search, key), ..m }, PickerAction::Continue)
        }
    } else if key == Key::Char('j') || key == Key::Down {
        (PickerModel { selected: Some(step_down(m.selected)), ..m }, PickerAction::Continue)
    } else if key == Key::Char('k') || key == Key::Up {
        (PickerModel { selected: Some(step_up(m.selected)), ..m }, PickerAction::Continue)
    } else if key == Key::Char('g') || key == Key::Home {
        (PickerModel { selected: Some(0), ..m }, PickerAction::Continue)
    } else if key == Key::Char('G') || key == Key::End {
        (PickerModel { selected: Some(usize::MAX), ..m }, PickerAction::Continue)
    } else if key == Key::Char('f') {
        (PickerModel { filter: next_filter(m.filter), ..m }, PickerAction::Continue)
    } else if key == Key::Char('/') {
        (PickerModel { search_active: true, ..m }, PickerAction::Continue)
    } else if key == Key::Backspace {
        (PickerModel { search: Seq::empty(), ..m }, PickerAction::Continue)
    } else if key == Key::Enter || key == Key::Char('y') || key == Key::Char('Y') {
        match m.selected {
            Some(i) => if i < filtered.len() {
                (m, PickerAction::Confirm(filtered[i as int]))
            } else {
                (m, PickerAction::Continue)
            },
            None => (m, PickerAction::Continue),
        }
    } else if key == Key::Char('q') || key == Key::Esc {
        (m, PickerAction::Cancel)
    } else {
        (m, PickerAction::Continue)
    }
}

/// While searching, typing a character (other than `/`, which ends the
/// search) and then deleting it gives back the state from before.
pub proof fn lemma_type_then_delete(m: PickerModel, f1: Seq<usize>, f2: Seq<usize>, c: char)
    requires
        m.search_active,
        c != '/',
    ensures
        key_transition(key_transition(m, f1, Key::Char(c)).0, f2, Key::Backspace).0 == m,
{
    let m1 = key_transition(m, f1, Key::Char(c)).0;
    assert(m1.search.drop_last() =~= m.search);
}

/// The selection a frame leaves: an entry past the end of a list of `len`
/// entries (or the first entry, when nothing is selected) moves onto the
/// last entry, or onto position 0 of an empty list.
pub open spec fn frame_selection(selected: Option<usize>, len: nat) -> Option<usize> {
    let current = match selected {
        Some(i) => i,
        None => 0,
    };
    if current >= len {
        Some(
            (if len == 0 {
                0
            } else {
                len - 1
            }) as usize,
        )
    } else {
        selected
    }
}

/// No key takes the selection away: the picker starts with one and keeps one.
pub proof fn lemma_selection_kept(m: PickerModel, filtered: Seq<usize>, key: Key)
    requires
        m.selected is Some,
    ensures
        key_transition(m, filtered, key).0.selected is Some,
{
}

/// Once a frame has started, the selection (which the picker always has)
/// lies on the list, or on its single placeholder line when the list is
/// empty, so drawing the list leaves the selection as it is.
pub proof fn lemma_frame_selection_fits(selected: Option<usize>, len: nat)
    requires
        selected is Some,
        len <= usize::MAX,
    ensures
        frame_selection(selected, len) matches Some(i) && (i < len || (len == 0 && i == 0)),
{
}

/// `/` toggles search mode: it starts a search, and pressed while searching
/// it ends the search and leaves the search text as it was.
pub proof fn lemma_slash_toggles_search(m: PickerModel, f1: Seq<usize>, f2: Seq<usize>)
    ensures
        key_transition(m, f1, Key::Char('/')).0 == (PickerModel {
            search_active: !m.search_active,
            ..m
        }),
        key_transition(key_transition(m, f1, Key::Char('/')).0, f2, Key::Char('/')).0 == m,
{
}

/// Choosing gives the theme listed at the selected entry, never a list
/// position: Enter, `y` or `Y` outside a search give `Confirm(t)` exactly
/// when the selection lies on the list, and `t` is the theme stored there;
/// no other key confirms.
pub proof fn lemma_confirm_gives_listed_theme(m: PickerModel, filtered: Seq<usize>, key: Key)
    ensures
        key_transition(m, filtered, key).1 matches PickerAction::Confirm(t) ==> {
            &&& !m.search_active
            &&& (key == Key::Enter || key == Key::Char('y') || key == Key::Char('Y'))
            &&& m.selected matches Some(i)
            &&& i < filtered.len()
            &&& t == filtered[i as int]
            &&& filtered.contains(t)
        },
        !m.search_active && (key == Key::Enter || key == Key::Char('y') || key == Key::Char('Y'))
            && (m.selected matches Some(i) && i < filtered.len()) ==> key_transition(
            m,
            filtered,
            key,
        ).1 == PickerAction::Confirm(filtered[m.selected->0 as int]),
{
    if let PickerAction::Confirm(t) = key_transition(m, filtered, key).1 {
        let i = m.selected->0;
        assert(filtered[i as int] == t);
    }
}

/// A frame brings a selection that lies past the end of a non-empty list
/// onto its last entry, leaves one on the list where it is, and selects
/// position 0 of an empty list.
pub proof fn lemma_frame_selection_clamps(i: usize, len: nat)
    requires
        len <= usize::MAX,
    ensures
        i >= len > 0 ==> frame_selection(Some(i), len) == Some((len - 1) as usize),
        i < len ==> frame_selection(Some(i), len) == Some(i),
        len == 0 ==> frame_selection(Some(i), len) == Some(0usize),
{
}

/// `G` and End, followed by the next frame, select the last entry of a
/// non-empty list; `g` and Home select the first.
pub proof fn lemma_jumps_reach_the_ends(m: PickerModel, filtered: Seq<usize>, key: Key)
    requires
        !m.search_active,
        0 < filtered.len() <= usize::MAX,
    ensures
        key == Key::End || key == Key::Char('G') ==> frame_selection(
            key_transition(m, filtered, key).0.selected,
            filtered.len(),
        ) == Some((filtered.len() - 1) as usize),
        key == Key::Home || key == Key::Char('g') ==> frame_selection(
            key_transition(m, filtered, key).0.selected,
            filtered.len(),
        ) == Some(0usize),
{
}

impl Picker {
    pub open spec fn model(&self) -> PickerModel {
        PickerModel {
            filter: self.filter,
            search: self.search@,
            search_active: self.search_active,
            selected: self.selected,
        }
    }

    /// `filtered` lists the themes that the filter and the search text select.
    pub open spec fn wf(&self, themes: Seq<Theme>) -> bool {
        is_selection(self.filtered@, themes, self.filter, lowercase(self.search@))
    }

    /// The picker as it opens: all themes, no search, the first entry
    /// selected, nothing previewed.
    pub fn new(themes: &[Theme]) -> (p: Picker)
        ensures
            p.wf(themes@),
            p.filtered@ == Seq::new(themes@.len(), |i: int| i as usize),
            p.filter == ThemeFilter::All,
            p.search@ == Seq::<char>::empty(),
            !p.search_active,
            p.selected == Some(0usize),
            !p.preview_applied,
            p.previewed is None,
            p.warning is None,
    {
        let search = String::new();
        let filtered = filter_themes(themes, ThemeFilter::All, search.as_str());
        Picker {
            filter: ThemeFilter::All,
            search,
            search_active: false,
            selected: Some(0),
            filtered,
            preview_applied: false,
            previewed: None,
            warning: None,
        }
    }

    /// Handles a key press (see `key_transition`) and lists the themes that
    /// the new filter and search text select.
    pub fn handle_key(&mut self, themes: &[Theme], key: Key) -> (r: PickerAction)
        requires
            old(self).wf(themes@),
        ensures
            (final(self).model(), r) == key_transition(old(self).model(), old(self).filtered@, key),
            r matches PickerAction::Confirm(t) ==> (old(self).selected matches Some(i) && i
                < old(self).filtered@.len() && t == old(self).filtered@[i as int]),
            r matches PickerAction::Confirm(t) ==> t < themes@.len() && old(self).filtered@.contains(
                t,
            ),
            !old(self).search_active && (key == Key::Enter || key == Key::Char('y')) && (old(
                self,
            ).selected matches Some(i) && i < old(self).filtered@.len()) ==> r
                == PickerAction::Confirm(old(self).filtered@[old(self).selected->0 as int]),
            final(self).wf(themes@),
            final(self).preview_applied == old(self).preview_applied,
            final(self).previewed == old(self).previewed,
            final(self).warning == old(self).warning,
    {
        if self.search_active {
            if key == Key::Esc || key == Key::Enter || key == Key::Char('/') {
                self.search_active = false;
            } else if key == Key::Backspace {
                pop_char(&mut self.search);
            } else {
                match key {
                    Key::Char(c) => {
                        push_char(&mut self.search, c);
                    },
                    _ => {},
                }
            }
            self.filtered = filter_themes(themes, self.filter, self.search.as_str());
            return PickerAction::Continue;
        }
        if key == Key::Char('j') || key == Key::Down {
            self.selected = Some(
                match self.selected {
                    None => 0,
                    Some(i) => i.saturating_add(1),
                },
            );
        } else if key == Key::Char('k') || key == Key::Up {
            self.selected = Some(
                match self.selected {
                    None => usize::MAX,
                    Some(i) => i.saturating_sub(1),
                },
            );
        } else if key == Key::Char('g') || key == Key::Home {
            self.selected = Some(0);
        } else if key == Key::Char('G') || key == Key::End {
            self.selected = Some(usize::MAX);
        } else if key == Key::Char('f') {
            self.filter = self.filter.next();
        } else if key == Key::Char('/') {
            self.search_active = true;
        } else if key == Key::Backspace {
            self.search = String::new();
        } else if key == Key::Enter || key == Key::Char('y') || key == Key::Char('Y') {
            match self.selected {
                Some(i) => {
                    if i < self.filtered.len() {
                        return PickerAction::Confirm(self.filtered[i]);
                    }
                },
                None => {},
            }
        } else if key == Key::Char('q') || key == Key::Esc {
            return PickerAction::Cancel;
        }
        self.filtered = filter_themes(themes, self.filter, self.search.as_str());
        PickerAction::Continue
    }
}

/// The line of the theme list at position `i` of `filtered`: the theme's
/// name, marked with `> ` when it is the current entry.
pub open spec fn list_entry_text(
    themes: Seq<Theme>,
    filtered: Seq<usize>,
    current: usize,
    i: int,
) -> Seq<char> {
    (if i == current {
        "> "@
    } else {
        "  "@
    }) + themes[filtered[i] as int].name@
}

/// The lines of the theme list.
pub open spec fn list_texts(themes: Seq<Theme>, filtered: Seq<usize>, current: usize) -> Seq<
    Seq<char>,
> {
    if filtered.len() == 0 {
        seq!["  (no matching themes)"@]
    } else {
        Seq::new(filtered.len(), |i: int| list_entry_text(themes, filtered, current, i))
    }
}

/// The search line.
pub open spec fn search_text(search: Seq<char>, active: bool) -> Seq<char> {
    if search.len() == 0 {
        if active {
            "Search: |"@
        } else {
            "Search: (press / to start, Backspace to clear)"@
        }
    } else {
        "Search: "@ + search + (if active {
            "|"@
        } else {
            Seq::<char>::empty()
        })
    }
}

/// The footer line.
pub open spec fn footer_text(warning: Option<Seq<char>>) -> Seq<char> {
    match warning {
        Some(w) => "Live preview warning: "@ + w,
        None => "Live preview on (debounced). Enter keep, q/Esc cancel"@,
    }
}

/// The warning a preview outcome leaves in the footer, if any.
pub open spec fn outcome_warning(outcome: PreviewOutcome) -> Option<Seq<char>> {
    match outcome {
        PreviewOutcome::Acknowledged => None,
        PreviewOutcome::NotAcknowledged => Some("reload signal not acknowledged"@),
        PreviewOutcome::ReloadFailed(e) => Some("reload error: "@ + e@),
        PreviewOutcome::ApplyFailed(e) => Some("preview apply error: "@ + e@),
    }
}

impl Picker {
    /// Starts a frame.  The frame shows the entry at the selected position
    /// (the first when nothing is selected), which is returned; a selection
    /// past the end of the list moves onto its last entry, for the frames
    /// that follow.
    pub fn begin_frame(&mut self) -> (current: usize)
        ensures
            current == (match old(self).selected {
                Some(i) => i,
                None => 0,
            }),
            final(self).selected == frame_selection(old(self).selected, old(self).filtered@.len()),
            current >= old(self).filtered@.len() > 0 ==> final(self).selected == Some(
                (old(self).filtered@.len() - 1) as usize,
            ),
            old(self).filtered@.len() == 0 ==> final(self).selected == Some(0usize),
            current < old(self).filtered@.len() ==> final(self).selected == old(self).selected,
            final(self).filter == old(self).filter,
            final(self).search == old(self).search,
            final(self).search_active == old(self).search_active,
            final(self).filtered == old(self).filtered,
            final(self).preview_applied == old(self).preview_applied,
            final(self).previewed == old(self).previewed,
            final(self).warning == old(self).warning,
    {
        let current = match self.selected {
            Some(i) => i,
            None => 0,
        };
        let len = self.filtered.len();
        if current >= len {
            self.selected = Some(len.saturating_sub(1));
        }
        current
    }

    /// The theme to preview in a frame that shows entry `current`: the one
    /// listed there, when it is not the theme last previewed and the
    /// preview pause has passed.
    pub fn preview_target(&self, themes: &[Theme], current: usize, pause_over: bool) -> (r:
        Option<usize>)
        requires
            self.wf(themes@),
        ensures
            r == (if current < self.filtered.len() && pause_over && text_of(self.previewed) != Some(
                themes@[self.filtered@[current as int] as int].name@,
            ) {
                Some(self.filtered@[current as int])
            } else {
                None
            }),
    {
        if current >= self.filtered.len() || !pause_over {
            return None;
        }
        let idx = self.filtered[current];
        let already = match &self.previewed {
            Some(p) => *p == themes[idx].name,
            None => false,
        };
        if already {
            None
        } else {
            Some(idx)
        }
    }

    /// Records how previewing the theme `name` went.
    pub fn record_preview(&mut self, name: &String, outcome: PreviewOutcome)
        ensures
            text_of(final(self).warning) == outcome_warning(outcome),
            outcome is ApplyFailed ==> final(self).preview_applied == old(self).preview_applied
                && final(self).previewed == old(self).previewed,
            !(outcome is ApplyFailed) ==> final(self).preview_applied && text_of(
                final(self).previewed,
            ) == Some(name@),
            final(self).model() == old(self).model(),
            final(self).filtered == old(self).filtered,
    {
        match outcome {
            PreviewOutcome::ApplyFailed(e) => {
                let mut w = String::new();
                append_str(&mut w, "preview apply error: ");
                append_str(&mut w, e.as_str());
                self.warning = Some(w);
            },
            PreviewOutcome::Acknowledged => {
                self.preview_applied = true;
                self.previewed = Some(name.clone());
                self.warning = None;
            },
            PreviewOutcome::NotAcknowledged => {
                self.preview_applied = true;
                self.previewed = Some(name.clone());
                let mut w = String::new();
                append_str(&mut w, "reload signal not acknowledged");
                self.warning = Some(w);
            },
            PreviewOutcome::ReloadFailed(e) => {
                self.preview_applied = true;
                self.previewed = Some(name.clone());
                let mut w = String::new();
                append_str(&mut w, "reload error: ");
                append_str(&mut w, e.as_str());
                self.warning = Some(w);
            },
        }
    }

    /// The lines of the theme list in a frame that shows entry `current`.
    pub fn list_lines(&self, themes: &[Theme], current: usize) -> (r: Vec<String>)
        requires
            self.wf(themes@),
        ensures
            r@.map_values(string_text()) == list_texts(themes@, self.filtered@, current),
    {
        let mut r: Vec<String> = Vec::new();
        if self.filtered.len() == 0 {
            let mut t = String::new();
            append_str(&mut t, "  (no matching themes)");
            r.push(t);
            assert(r@.map_values(string_text()) =~= list_texts(themes@, self.filtered@, current));
            return r;
        }
        let mut i: usize = 0;
        while i < self.filtered.len()
            invariant
                self.wf(themes@),
                i <= self.filtered.len(),
                r@.map_values(string_text()) =~= Seq::new(
                    i as nat,
                    |j: int| list_entry_text(themes@, self.filtered@, current, j),
                ),
            decreases self.filtered.len() - i,
        {
            let mut t = String::new();
            if i == current {
                append_str(&mut t, "> ");
            } else {
                append_str(&mut t, "  ");
            }
            append_str(&mut t, themes[self.filtered[i]].name.as_str());
            assert(t@ == list_entry_text(themes@, self.filtered@, current, i as int));
            let ghost before = r@;
            let ghost tv = t@;
            r.push(t);
            assert(r@.map_values(string_text()) =~= before.map_values(string_text()).push(tv));
            i += 1;
        }
        r
    }

    /// The search line.
    pub fn search_line(&self) -> (r: String)
        ensures
            r@ == search_text(self.search@, self.search_active),
    {
        let mut r = String::new();
        if self.search.as_str().is_empty() {
            if self.search_active {
                append_str(&mut r, "Search: |");
            } else {
                append_str(&mut r, "Search: (press / to start, Backspace to clear)");
            }
        } else {
            append_str(&mut r, "Search: ");
            append_str(&mut r, self.search.as_str());
            if self.search_active {
                append_str(&mut r, "|");
            }
        }
        r
    }

    /// The filter line, such as `[Filter: dark]`.
    pub fn filter_line(&self) -> (r: String)
        ensures
            r@ == "[Filter: "@ + filter_label(self.filter) + "]"@,
    {
        let mut r = String::new();
        append_str(&mut r, "[Filter: ");
        append_str(&mut r, self.filter.label());
        append_str(&mut r, "]");
        r
    }

    /// The footer line.
    pub fn footer_line(&self) -> (r: String)
        ensures
            r@ == footer_text(text_of(self.warning)),
    {
        let mut r = String::new();
        match &self.warning {
            Some(w) => {
                append_str(&mut r, "Live preview warning: ");
                append_str(&mut r, w.as_str());
            },
            None => {
                append_str(&mut r, "Live preview on (debounced). Enter keep, q/Esc cancel");
            },
        }
        r
    }
}

/// What to do with the theme file when the picker closes: apply a chosen
/// theme; after a cancel that followed a preview, put back the theme that
/// was active before, or remove the file when there was none; otherwise
/// nothing.
pub fn exit_plan(chosen: Option<usize>, preview_applied: bool, original: Option<String>) -> (r:
    ExitPlan)
    ensures
        chosen matches Some(i) ==> r == ExitPlan::Apply(i),
        chosen is None && preview_applied && original is Some ==> r == ExitPlan::Restore(
            original->0,
        ),
        chosen is None && preview_applied && original is None ==> r == ExitPlan::Clear,
        chosen is None && !preview_applied ==> r == ExitPlan::Nothing,
{
    match chosen {
        Some(i) => ExitPlan::Apply(i),
        None => if preview_applied {
            match original {
                Some(name) => ExitPlan::Restore(name),
                None => ExitPlan::Clear,
            }
        } else {
            ExitPlan::Nothing
        },
    }
}

} // verus!
