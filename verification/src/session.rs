use vstd::prelude::*;
use crate::chars::{decimal, decimal_u64, from_chars, push_all, push_text, same_text};
use crate::model::opt_text;
use crate::settings::CaptureDocRef;

verus! {

/// An open tab.
#[derive(Debug, Clone, PartialEq, Eq)]
pub struct SessionTab {
    pub id: String,
    pub doc_ref: CaptureDocRef,
    pub title: String,
    pub is_modified: bool,
}

/// The open tabs, the active one, and the number that the next tab gets.
#[derive(Debug, Clone, PartialEq, Eq)]
pub struct SessionState {
    pub tabs: Vec<SessionTab>,
    pub active_tab_id: Option<String>,
    pub next_tab_id: u64,
}

/// A tab as plain values.
pub struct TabView {
    pub id: Seq<char>,
    pub location_id: i64,
    pub rel_path: Seq<char>,
    pub title: Seq<char>,
    pub is_modified: bool,
}

/// A session as plain values.
pub struct SessionView {
    pub tabs: Seq<TabView>,
    pub active_tab_id: Option<Seq<char>>,
    pub next_tab_id: u64,
}

impl View for SessionTab {
    type V = TabView;

    open spec fn view(&self) -> TabView {
        TabView {
            id: self.id@,
            location_id: self.doc_ref.location_id,
            rel_path: self.doc_ref.rel_path@,
            title: self.title@,
            is_modified: self.is_modified,
        }
    }
}

pub open spec fn tab_views(tabs: Seq<SessionTab>) -> Seq<TabView> {
    tabs.map_values(|t: SessionTab| t@)
}

impl View for SessionState {
    type V = SessionView;

    open spec fn view(&self) -> SessionView {
        SessionView {
            tabs: tab_views(self.tabs@),
            active_tab_id: opt_text(self.active_tab_id),
            next_tab_id: self.next_tab_id,
        }
    }
}

impl Default for SessionState {
    fn default() -> (out: Self)
        ensures
            out@ == (SessionView { tabs: Seq::empty(), active_tab_id: None, next_tab_id: 1 }),
    {
        let out = SessionState { tabs: Vec::new(), active_tab_id: None, next_tab_id: 1 };
        proof {
            assert(tab_views(out.tabs@) =~= Seq::empty());
        }
        out
    }
}

/// Index of the first tab at or after `from` with the given identifier.
pub open spec fn find_tab(tabs: Seq<TabView>, id: Seq<char>, from: int) -> Option<int>
    decreases tabs.len() - from,
{
    if from < 0 || from >= tabs.len() {
        None
    } else if tabs[from].id == id {
        Some(from)
    } else {
        find_tab(tabs, id, from + 1)
    }
}

/// Index of the first tab at or after `from` that shows the given document.
pub open spec fn find_doc_tab(tabs: Seq<TabView>, location_id: i64, rel_path: Seq<char>, from: int) -> Option<
    int,
>
    decreases tabs.len() - from,
{
    if from < 0 || from >= tabs.len() {
        None
    } else if tabs[from].location_id == location_id && tabs[from].rel_path == rel_path {
        Some(from)
    } else {
        find_doc_tab(tabs, location_id, rel_path, from + 1)
    }
}

/// The tabs among the first `n` that have an identifier, the first of
/// each identifier only.
pub open spec fn distinct_tabs(tabs: Seq<TabView>, n: int) -> Seq<TabView>
    decreases n,
{
    if n <= 0 || n > tabs.len() {
        Seq::empty()
    } else {
        let before = distinct_tabs(tabs, n - 1);
        if tabs[n - 1].id.len() > 0 && find_tab(before, tabs[n - 1].id, 0) is None {
            before.push(tabs[n - 1])
        } else {
            before
        }
    }
}

/// The active tab of well-formed tabs: the given one where it is among
/// the tabs, else the first tab, and none where there are no tabs.
pub open spec fn active_for(tabs: Seq<TabView>, active: Option<Seq<char>>) -> Option<Seq<char>> {
    if tabs.len() == 0 {
        None
    } else {
        match active {
            Some(id) => if find_tab(tabs, id, 0) is Some {
                active
            } else {
                Some(tabs[0].id)
            },
            None => Some(tabs[0].id),
        }
    }
}

/// A session made well-formed: tabs without identifier and tabs that
/// repeat an identifier are dropped, the active tab is one of the tabs,
/// and the next number is at least one.
pub open spec fn normalized(s: SessionView) -> SessionView {
    let tabs = distinct_tabs(s.tabs, s.tabs.len() as int);
    SessionView {
        tabs,
        active_tab_id: active_for(tabs, s.active_tab_id),
        next_tab_id: if s.next_tab_id == 0 {
            1
        } else {
            s.next_tab_id
        },
    }
}

/// The identifier of the tab with a number.
pub open spec fn tab_id_spec(number: u64) -> Seq<char> {
    "tab-"@ + decimal(number as nat)
}

/// The number after `n`, held at the largest.
pub open spec fn next_number(n: u64) -> u64 {
    if n == u64::MAX {
        n
    } else {
        (n + 1) as u64
    }
}

/// The session after a document is opened: the tab that shows it already
/// becomes active; else a new tab is added at the end and becomes active.
pub open spec fn opened(s: SessionView, location_id: i64, rel_path: Seq<char>, title: Seq<char>) -> SessionView {
    match find_doc_tab(s.tabs, location_id, rel_path, 0) {
        Some(i) => SessionView { active_tab_id: Some(s.tabs[i].id), ..s },
        None => SessionView {
            tabs: s.tabs.push(
                TabView {
                    id: tab_id_spec(s.next_tab_id),
                    location_id,
                    rel_path,
                    title,
                    is_modified: false,
                },
            ),
            active_tab_id: Some(tab_id_spec(s.next_tab_id)),
            next_tab_id: next_number(s.next_tab_id),
        },
    }
}

/// The session after a tab is selected; a tab that is not there changes nothing.
pub open spec fn selected(s: SessionView, id: Seq<char>) -> SessionView {
    if find_tab(s.tabs, id, 0) is Some {
        SessionView { active_tab_id: Some(id), ..s }
    } else {
        s
    }
}

/// The session after a tab is closed. Where the closed tab was active,
/// the tab that took its place becomes active, or the last tab where it
/// was the last.
pub open spec fn closed(s: SessionView, id: Seq<char>) -> SessionView {
    match find_tab(s.tabs, id, 0) {
        None => s,
        Some(i) => {
            let tabs = s.tabs.remove(i);
            SessionView {
                tabs,
                active_tab_id: if tabs.len() == 0 {
                    None
                } else if s.active_tab_id == Some(id) {
                    Some(
                        tabs[if i < tabs.len() {
                            i
                        } else {
                            tabs.len() - 1
                        }].id,
                    )
                } else {
                    s.active_tab_id
                },
                ..s
            }
        },
    }
}

/// The tabs with the modified mark of the first tab of an identifier set.
pub open spec fn marked(s: SessionView, id: Seq<char>, is_modified: bool) -> SessionView {
    match find_tab(s.tabs, id, 0) {
        Some(i) => SessionView {
            tabs: s.tabs.update(i, TabView { is_modified, ..s.tabs[i] }),
            ..s
        },
        None => s,
    }
}

/// A tab that shows a document shows another one, under another title.
pub open spec fn retarget(
    location_id: i64,
    old_rel_path: Seq<char>,
    new_location_id: i64,
    new_rel_path: Seq<char>,
    title: Seq<char>,
) -> spec_fn(TabView) -> TabView {
    |t: TabView|
        if t.location_id == location_id && t.rel_path == old_rel_path {
            TabView { location_id: new_location_id, rel_path: new_rel_path, title, ..t }
        } else {
            t
        }
}

/// The tabs that do not show a document.
pub open spec fn not_showing(location_id: i64, rel_path: Seq<char>) -> spec_fn(TabView) -> bool {
    |t: TabView| !(t.location_id == location_id && t.rel_path == rel_path)
}

/// The tabs of the given locations.
pub open spec fn in_locations(valid: Seq<i64>) -> spec_fn(TabView) -> bool {
    |t: TabView| valid.contains(t.location_id)
}

/// The tabs in a new order: the tabs of the first `n` identifiers, each
/// once and in the order of the identifiers, taken out of `remaining`.
pub open spec fn picked(remaining: Seq<TabView>, ids: Seq<Seq<char>>, n: int) -> (Seq<TabView>, Seq<TabView>)
    decreases n,
{
    if n <= 0 || n > ids.len() {
        (Seq::empty(), remaining)
    } else {
        let (taken, rest) = picked(remaining, ids, n - 1);
        match find_tab(rest, ids[n - 1], 0) {
            Some(i) => (taken.push(rest[i]), rest.remove(i)),
            None => (taken, rest),
        }
    }
}

/// The session with its tabs in a new order: the tabs that the
/// identifiers name first, in that order, then the others as they were.
pub open spec fn reordered(s: SessionView, ids: Seq<Seq<char>>) -> SessionView {
    if s.tabs.len() == 0 {
        s
    } else {
        let (taken, rest) = picked(s.tabs, ids, ids.len() as int);
        normalized(SessionView { tabs: taken + rest, ..s })
    }
}

fn clone_doc_ref(d: &CaptureDocRef) -> (out: CaptureDocRef)
    ensures
        out.location_id == d.location_id,
        out.rel_path@ == d.rel_path@,
{
    CaptureDocRef { location_id: d.location_id, rel_path: d.rel_path.clone() }
}

fn clone_tab(t: &SessionTab) -> (out: SessionTab)
    ensures
        out@ == t@,
{
    SessionTab {
        id: t.id.clone(),
        doc_ref: clone_doc_ref(&t.doc_ref),
        title: t.title.clone(),
        is_modified: t.is_modified,
    }
}

fn position_of(tabs: &Vec<SessionTab>, id: &str) -> (out: Option<usize>)
    ensures
        match out {
            Some(i) => find_tab(tab_views(tabs@), id@, 0) == Some(i as int) && i < tabs.len(),
            None => find_tab(tab_views(tabs@), id@, 0) is None,
        },
{
    let ghost tv = tab_views(tabs@);
    let mut i: usize = 0;
    while i < tabs.len()
        invariant
            i <= tabs.len(),
            tv == tab_views(tabs@),
            find_tab(tv, id@, 0) == find_tab(tv, id@, i as int),
        decreases tabs.len() - i,
    {
        proof {
            assert(tv[i as int] == tabs@[i as int]@);
        }
        if same_text(tabs[i].id.as_str(), id) {
            return Some(i);
        }
        i += 1;
    }
    None
}

fn position_of_doc(tabs: &Vec<SessionTab>, location_id: i64, rel_path: &str) -> (out: Option<usize>)
    ensures
        match out {
            Some(i) => find_doc_tab(tab_views(tabs@), location_id, rel_path@, 0) == Some(i as int)
                && i < tabs.len(),
            None => find_doc_tab(tab_views(tabs@), location_id, rel_path@, 0) is None,
        },
{
    let ghost tv = tab_views(tabs@);
    let mut i: usize = 0;
    while i < tabs.len()
        invariant
            i <= tabs.len(),
            tv == tab_views(tabs@),
            find_doc_tab(tv, location_id, rel_path@, 0) == find_doc_tab(
                tv,
                location_id,
                rel_path@,
                i as int,
            ),
        decreases tabs.len() - i,
    {
        proof {
            assert(tv[i as int] == tabs@[i as int]@);
        }
        if tabs[i].doc_ref.location_id == location_id && same_text(
            tabs[i].doc_ref.rel_path.as_str(),
            rel_path,
        ) {
            return Some(i);
        }
        i += 1;
    }
    None
}

/// The identifier of the tab with a number.
pub fn tab_id(number: u64) -> (out: String)
    ensures
        out@ == tab_id_spec(number),
{
    let mut chars: Vec<char> = Vec::new();
    push_text(&mut chars, "tab-");
    let digits = decimal_u64(number);
    push_all(&mut chars, &digits);
    proof {
        assert(Seq::<char>::empty() + "tab-"@ =~= "tab-"@);
    }
    from_chars(&chars)
}

impl SessionState {
    /// A copy of the session.
    pub fn copy(&self) -> (out: Self)
        ensures
            out@ == self@,
    {
        let mut tabs: Vec<SessionTab> = Vec::new();
        let mut i: usize = 0;
        while i < self.tabs.len()
            invariant
                i <= self.tabs.len(),
                tab_views(tabs@) == tab_views(self.tabs@).take(i as int),
            decreases self.tabs.len() - i,
        {
            let ghost before = tab_views(tabs@);
            tabs.push(clone_tab(&self.tabs[i]));
            proof {
                assert(tab_views(tabs@) =~= before.push(self.tabs@[i as int]@));
                assert(before.push(self.tabs@[i as int]@) =~= tab_views(self.tabs@).take(i + 1));
            }
            i += 1;
        }
        proof {
            assert(tab_views(self.tabs@).take(self.tabs.len() as int) =~= tab_views(self.tabs@));
        }
        let active = match &self.active_tab_id {
            Some(a) => Some(a.clone()),
            None => None,
        };
        SessionState { tabs, active_tab_id: active, next_tab_id: self.next_tab_id }
    }

    /// Makes the session well-formed: drops tabs without identifier and
    /// tabs that repeat an identifier, makes the first tab active where
    /// the active one is not among the tabs, and lets numbers start at one.
    pub fn normalize(&mut self)
        ensures
            final(self)@ == normalized(old(self)@),
    {
        let ghost tv = tab_views(self.tabs@);
        let mut kept: Vec<SessionTab> = Vec::new();
        let mut i: usize = 0;
        proof {
            assert(tab_views(kept@) =~= Seq::empty());
        }
        while i < self.tabs.len()
            invariant
                i <= self.tabs.len(),
                *self == *old(self),
                tv == tab_views(self.tabs@),
                tab_views(kept@) == distinct_tabs(tv, i as int),
            decreases self.tabs.len() - i,
        {
            let ghost before = tab_views(kept@);
            proof {
                assert(tv[i as int] == self.tabs@[i as int]@);
            }
            if !self.tabs[i].id.as_str().is_empty() {
                match position_of(&kept, self.tabs[i].id.as_str()) {
                    None => {
                        kept.push(clone_tab(&self.tabs[i]));
                        proof {
                            assert(tab_views(kept@) =~= before.push(tv[i as int]));
                        }
                    },
                    Some(_) => {},
                }
            }
            i += 1;
        }
        let active: Option<String> = if kept.len() == 0 {
            None
        } else {
            proof {
                assert(tab_views(kept@)[0] == kept@[0]@);
            }
            match &self.active_tab_id {
                Some(id) => match position_of(&kept, id.as_str()) {
                    Some(_) => Some(id.clone()),
                    None => Some(kept[0].id.clone()),
                },
                None => Some(kept[0].id.clone()),
            }
        };
        self.tabs = kept;
        self.active_tab_id = active;
        if self.next_tab_id == 0 {
            self.next_tab_id = 1;
        }
    }

    /// Opens a document in a tab. Always changes the session.
    pub fn open_tab(&mut self, doc_ref: CaptureDocRef, title: String)
        ensures
            final(self)@ == opened(old(self)@, doc_ref.location_id, doc_ref.rel_path@, title@),
    {
        let ghost tv = tab_views(self.tabs@);
        match position_of_doc(&self.tabs, doc_ref.location_id, doc_ref.rel_path.as_str()) {
            Some(i) => {
                proof {
                    assert(tv[i as int] == self.tabs@[i as int]@);
                }
                self.active_tab_id = Some(self.tabs[i].id.clone());
            },
            None => {
                let id = tab_id(self.next_tab_id);
                if self.next_tab_id < u64::MAX {
                    self.next_tab_id = self.next_tab_id + 1;
                }
                let tab = SessionTab { id: id.clone(), doc_ref, title, is_modified: false };
                self.tabs.push(tab);
                self.active_tab_id = Some(id);
                proof {
                    assert(tab_views(self.tabs@) =~= tv.push(tab@));
                }
            },
        }
    }

    /// Makes a tab active. Returns whether there is such a tab.
    pub fn select_tab(&mut self, tab_id: &str) -> (changed: bool)
        ensures
            final(self)@ == selected(old(self)@, tab_id@),
            changed == (find_tab(old(self)@.tabs, tab_id@, 0) is Some),
    {
        match position_of(&self.tabs, tab_id) {
            Some(_) => {
                self.active_tab_id = Some(tab_id.to_string());
                true
            },
            None => false,
        }
    }

    /// Closes a tab. Returns whether there was such a tab.
    pub fn close_tab(&mut self, tab_id: &str) -> (changed: bool)
        ensures
            final(self)@ == closed(old(self)@, tab_id@),
            changed == (find_tab(old(self)@.tabs, tab_id@, 0) is Some),
    {
        let ghost tv = tab_views(self.tabs@);
        match position_of(&self.tabs, tab_id) {
            None => false,
            Some(i) => {
                self.tabs.remove(i);
                proof {
                    assert(tab_views(self.tabs@) =~= tv.remove(i as int));
                }
                let was_active = match &self.active_tab_id {
                    Some(a) => same_text(a.as_str(), tab_id),
                    None => false,
                };
                if self.tabs.len() == 0 {
                    self.active_tab_id = None;
                } else if was_active {
                    let next = if i < self.tabs.len() {
                        i
                    } else {
                        self.tabs.len() - 1
                    };
                    proof {
                        assert(tab_views(self.tabs@)[next as int] == self.tabs@[next as int]@);
                    }
                    self.active_tab_id = Some(self.tabs[next].id.clone());
                }
                true
            },
        }
    }

    /// Puts the tabs in a new order: those that the identifiers name
    /// first, in that order, then the others as they were; then the
    /// session is made well-formed. Returns whether there were tabs to order.
    pub fn reorder_tabs(&mut self, tab_ids: &Vec<String>) -> (changed: bool)
        ensures
            final(self)@ == reordered(old(self)@, tab_ids@.map_values(|s: String| s@)),
            changed == (old(self)@.tabs.len() > 0),
    {
        if self.tabs.len() == 0 {
            return false;
        }
        let ghost ids = tab_ids@.map_values(|s: String| s@);
        let ghost start = tab_views(self.tabs@);
        let mut taken: Vec<SessionTab> = Vec::new();
        let mut k: usize = 0;
        proof {
            assert(tab_views(taken@) =~= Seq::empty());
        }
        while k < tab_ids.len()
            invariant
                k <= tab_ids.len(),
                ids == tab_ids@.map_values(|s: String| s@),
                self.active_tab_id == old(self).active_tab_id,
                self.next_tab_id == old(self).next_tab_id,
                start == tab_views(old(self).tabs@),
                start.len() > 0,
                (tab_views(taken@), tab_views(self.tabs@)) == picked(start, ids, k as int),
            decreases tab_ids.len() - k,
        {
            let ghost before = tab_views(taken@);
            let ghost rest = tab_views(self.tabs@);
            proof {
                assert(ids[k as int] == tab_ids@[k as int]@);
            }
            match position_of(&self.tabs, tab_ids[k].as_str()) {
                Some(i) => {
                    let tab = self.tabs.remove(i);
                    proof {
                        assert(tab@ == rest[i as int]);
                        assert(tab_views(self.tabs@) =~= rest.remove(i as int));
                    }
                    taken.push(tab);
                    proof {
                        assert(tab_views(taken@) =~= before.push(rest[i as int]));
                    }
                },
                None => {},
            }
            k += 1;
        }
        let ghost taken_view = tab_views(taken@);
        let ghost rest = tab_views(self.tabs@);
        let mut j: usize = 0;
        while j < self.tabs.len()
            invariant
                j <= self.tabs.len(),
                self.active_tab_id == old(self).active_tab_id,
                self.next_tab_id == old(self).next_tab_id,
                rest == tab_views(self.tabs@),
                tab_views(taken@) == taken_view + rest.take(j as int),
            decreases self.tabs.len() - j,
        {
            let ghost before = tab_views(taken@);
            taken.push(clone_tab(&self.tabs[j]));
            proof {
                assert(tab_views(taken@) =~= before.push(self.tabs@[j as int]@));
                assert(before.push(self.tabs@[j as int]@) =~= taken_view + rest.take(j + 1));
            }
            j += 1;
        }
        proof {
            assert(rest.take(self.tabs.len() as int) =~= rest);
        }
        self.tabs = taken;
        self.normalize();
        true
    }

    /// Sets or clears the modified mark of a tab. Returns whether the mark changed.
    pub fn mark_tab_modified(&mut self, tab_id: &str, is_modified: bool) -> (changed: bool)
        ensures
            final(self)@ == marked(old(self)@, tab_id@, is_modified),
            changed == (find_tab(old(self)@.tabs, tab_id@, 0) matches Some(i)
                && old(self)@.tabs[i].is_modified != is_modified),
    {
        let ghost tv = tab_views(self.tabs@);
        match position_of(&self.tabs, tab_id) {
            Some(i) => {
                proof {
                    assert(tv[i as int] == self.tabs@[i as int]@);
                }
                if self.tabs[i].is_modified != is_modified {
                    let mut tab = clone_tab(&self.tabs[i]);
                    tab.is_modified = is_modified;
                    self.tabs.set(i, tab);
                    proof {
                        assert(tab_views(self.tabs@) =~= tv.update(
                            i as int,
                            TabView { is_modified, ..tv[i as int] },
                        ));
                    }
                    true
                } else {
                    proof {
                        assert(tv.update(i as int, TabView { is_modified, ..tv[i as int] }) =~= tv);
                    }
                    false
                }
            },
            None => false,
        }
    }

    /// Lets every tab that shows a document show another one, under
    /// another title. Returns whether a tab showed the document.
    pub fn update_tab_doc(
        &mut self,
        location_id: i64,
        old_rel_path: &str,
        new_doc_ref: &CaptureDocRef,
        title: &str,
    ) -> (changed: bool)
        ensures
            final(self)@ == (SessionView {
                tabs: old(self)@.tabs.map_values(
                    retarget(
                        location_id,
                        old_rel_path@,
                        new_doc_ref.location_id,
                        new_doc_ref.rel_path@,
                        title@,
                    ),
                ),
                ..old(self)@
            }),
            changed == (find_doc_tab(old(self)@.tabs, location_id, old_rel_path@, 0) is Some),
    {
        let ghost tv = tab_views(self.tabs@);
        let ghost f = retarget(
            location_id,
            old_rel_path@,
            new_doc_ref.location_id,
            new_doc_ref.rel_path@,
            title@,
        );
        let mut changed = false;
        let mut i: usize = 0;
        while i < self.tabs.len()
            invariant
                i <= self.tabs.len(),
                self.tabs.len() == tv.len(),
                self.active_tab_id == old(self).active_tab_id,
                self.next_tab_id == old(self).next_tab_id,
                tv == tab_views(old(self).tabs@),
                f == retarget(
                    location_id,
                    old_rel_path@,
                    new_doc_ref.location_id,
                    new_doc_ref.rel_path@,
                    title@,
                ),
                forall|k: int| 0 <= k < i ==> (#[trigger] self.tabs@[k])@ == f(tv[k]),
                forall|k: int| i <= k < tv.len() ==> (#[trigger] self.tabs@[k])@ == tv[k],
                changed ==> find_doc_tab(tv, location_id, old_rel_path@, 0) is Some,
                !changed ==> find_doc_tab(tv, location_id, old_rel_path@, 0) == find_doc_tab(
                    tv,
                    location_id,
                    old_rel_path@,
                    i as int,
                ),
            decreases self.tabs.len() - i,
        {
            proof {
                assert(tv[i as int] == self.tabs@[i as int]@);
            }
            if self.tabs[i].doc_ref.location_id == location_id && same_text(
                self.tabs[i].doc_ref.rel_path.as_str(),
                old_rel_path,
            ) {
                proof {
                    assert(tv[i as int] == self.tabs@[i as int]@);
                    assert(find_doc_tab(tv, location_id, old_rel_path@, i as int) == Some(i as int));
                }
                let mut tab = clone_tab(&self.tabs[i]);
                tab.doc_ref = clone_doc_ref(new_doc_ref);
                tab.title = title.to_string();
                self.tabs.set(i, tab);
                changed = true;
            }
            i += 1;
        }
        proof {
            assert(tab_views(self.tabs@) =~= tv.map_values(f));
        }
        changed
    }

    fn retain_tabs(&mut self, location_id: i64, rel_path: &str) -> (removed: bool)
        ensures
            final(self)@ == (SessionView {
                tabs: old(self)@.tabs.filter(not_showing(location_id, rel_path@)),
                ..old(self)@
            }),
            removed == (final(self)@.tabs.len() != old(self)@.tabs.len()),
    {
        let ghost tv = tab_views(self.tabs@);
        let ghost pred = not_showing(location_id, rel_path@);
        let mut kept: Vec<SessionTab> = Vec::new();
        let mut i: usize = 0;
        proof {
            reveal(Seq::filter);
            assert(tv.take(0).filter(pred) =~= Seq::empty());
            assert(tab_views(kept@) =~= Seq::empty());
        }
        while i < self.tabs.len()
            invariant
                i <= self.tabs.len(),
                *self == *old(self),
                tv == tab_views(self.tabs@),
                pred == not_showing(location_id, rel_path@),
                tab_views(kept@) == tv.take(i as int).filter(pred),
            decreases self.tabs.len() - i,
        {
            let ghost before = tab_views(kept@);
            proof {
                crate::seq_lemmas::lemma_filter_step(tv, pred, i as int);
                assert(tv[i as int] == self.tabs@[i as int]@);
            }
            if !(self.tabs[i].doc_ref.location_id == location_id && same_text(
                self.tabs[i].doc_ref.rel_path.as_str(),
                rel_path,
            )) {
                kept.push(clone_tab(&self.tabs[i]));
                proof {
                    assert(tab_views(kept@) =~= before.push(tv[i as int]));
                }
            }
            i += 1;
        }
        proof {
            assert(tv.take(self.tabs.len() as int) =~= tv);
        }
        let removed = kept.len() != self.tabs.len();
        self.tabs = kept;
        removed
    }

    /// Closes every tab that shows a document; where one did, the session
    /// is made well-formed. Returns whether a tab was closed.
    pub fn drop_doc(&mut self, location_id: i64, rel_path: &str) -> (changed: bool)
        ensures
            ({
                let kept = SessionView {
                    tabs: old(self)@.tabs.filter(not_showing(location_id, rel_path@)),
                    ..old(self)@
                };
                changed == (kept.tabs.len() != old(self)@.tabs.len()) && final(self)@ == if changed {
                    normalized(kept)
                } else {
                    old(self)@
                }
            }),
    {
        let ghost tv = tab_views(self.tabs@);
        let removed = self.retain_tabs(location_id, rel_path);
        if removed {
            self.normalize();
        } else {
            proof {
                lemma_filter_same_length(tv, not_showing(location_id, rel_path@));
            }
        }
        removed
    }

    /// Closes every tab of a location that is not among the given ones;
    /// where there was one, the session is made well-formed. Returns
    /// whether a tab was closed.
    pub fn prune_locations(&mut self, valid_location_ids: &Vec<i64>) -> (changed: bool)
        ensures
            ({
                let kept = SessionView {
                    tabs: old(self)@.tabs.filter(in_locations(valid_location_ids@)),
                    ..old(self)@
                };
                changed == (kept.tabs.len() != old(self)@.tabs.len()) && final(self)@ == if changed {
                    normalized(kept)
                } else {
                    old(self)@
                }
            }),
    {
        let ghost tv = tab_views(self.tabs@);
        let ghost pred = in_locations(valid_location_ids@);
        let mut kept: Vec<SessionTab> = Vec::new();
        let mut i: usize = 0;
        proof {
            reveal(Seq::filter);
            assert(tv.take(0).filter(pred) =~= Seq::empty());
            assert(tab_views(kept@) =~= Seq::empty());
        }
        while i < self.tabs.len()
            invariant
                i <= self.tabs.len(),
                *self == *old(self),
                tv == tab_views(self.tabs@),
                pred == in_locations(valid_location_ids@),
                tab_views(kept@) == tv.take(i as int).filter(pred),
            decreases self.tabs.len() - i,
        {
            let ghost before = tab_views(kept@);
            proof {
                crate::seq_lemmas::lemma_filter_step(tv, pred, i as int);
                assert(tv[i as int] == self.tabs@[i as int]@);
            }
            let wanted = self.tabs[i].doc_ref.location_id;
            let mut found = false;
            let mut k: usize = 0;
            while k < valid_location_ids.len()
                invariant
                    k <= valid_location_ids.len(),
                    found == (exists|m: int| 0 <= m < k && valid_location_ids@[m] == wanted),
                decreases valid_location_ids.len() - k,
            {
                if valid_location_ids[k] == wanted {
                    found = true;
                }
                k += 1;
            }
            proof {
                assert(found == valid_location_ids@.contains(wanted));
            }
            if found {
                kept.push(clone_tab(&self.tabs[i]));
                proof {
                    assert(tab_views(kept@) =~= before.push(tv[i as int]));
                }
            }
            i += 1;
        }
        proof {
            assert(tv.take(self.tabs.len() as int) =~= tv);
        }
        let removed = kept.len() != self.tabs.len();
        if removed {
            self.tabs = kept;
            self.normalize();
        } else {
            proof {
                lemma_filter_same_length(tv, pred);
            }
        }
        removed
    }

    /// The document of the active tab.
    pub fn active_document(&self) -> (out: Option<CaptureDocRef>)
        ensures
            match out {
                Some(d) => self@.active_tab_id matches Some(id) && find_tab(self@.tabs, id, 0)
                    matches Some(i) && d.location_id == self@.tabs[i].location_id && d.rel_path@
                    == self@.tabs[i].rel_path,
                None => self@.active_tab_id matches Some(id) ==> find_tab(self@.tabs, id, 0) is None,
            },
    {
        match &self.active_tab_id {
            Some(id) => match position_of(&self.tabs, id.as_str()) {
                Some(i) => {
                    proof {
                        assert(tab_views(self.tabs@)[i as int] == self.tabs@[i as int]@);
                    }
                    Some(clone_doc_ref(&self.tabs[i].doc_ref))
                },
                None => None,
            },
            None => None,
        }
    }
}

/// A filtering that drops nothing changes nothing.
pub proof fn lemma_filter_same_length<A>(s: Seq<A>, pred: spec_fn(A) -> bool)
    requires
        s.filter(pred).len() == s.len(),
    ensures
        s.filter(pred) == s,
    decreases s.len(),
{
    reveal(Seq::filter);
    if s.len() > 0 {
        let init = s.drop_last();
        crate::seq_lemmas::lemma_filter_satisfies(init, pred);
        if pred(s.last()) {
            lemma_filter_same_length(init, pred);
            assert(init.push(s.last()) =~= s);
        }
    }
}

} // verus!
