//! Tracking of the open toplevel windows and their most-recently-used order.
//!
//! Windows are known by a handle key (a number that the program gives each
//! toplevel handle of the compositor) and outputs by an output key. Each
//! handle is given a unique id when it appears; the MRU order lists ids, most
//! recently activated first.

use vstd::prelude::*;

verus! {

/// Information about a single toplevel window.
#[derive(Debug, Clone)]
pub struct ToplevelInfo {
    pub title: String,
    pub app_id: String,
    pub is_activated: bool,
    pub is_minimized: bool,
    pub is_fullscreen: bool,
    pub is_maximized: bool,
}

/// A window with no title, no app id and no state flags set.
pub open spec fn is_blank(info: ToplevelInfo) -> bool {
    &&& info.title@.len() == 0
    &&& info.app_id@.len() == 0
    &&& !info.is_activated
    &&& !info.is_minimized
    &&& !info.is_fullscreen
    &&& !info.is_maximized
}

impl Default for ToplevelInfo {
    fn default() -> (r: Self)
        ensures
            is_blank(r),
    {
        ToplevelInfo {
            title: String::new(),
            app_id: String::new(),
            is_activated: false,
            is_minimized: false,
            is_fullscreen: false,
            is_maximized: false,
        }
    }
}

impl ToplevelInfo {
    /// A copy of this information.
    pub fn duplicate(&self) -> (r: Self)
        ensures
            r == *self,
    {
        ToplevelInfo {
            title: self.title.clone(),
            app_id: self.app_id.clone(),
            is_activated: self.is_activated,
            is_minimized: self.is_minimized,
            is_fullscreen: self.is_fullscreen,
            is_maximized: self.is_maximized,
        }
    }
}

/// One tracked window: its handle key, the pending information (what the
/// compositor has sent since the last `done`) and the committed information.
pub type ToplevelEntry = (u32, ToplevelInfo, ToplevelInfo);

/// Entry `i` is the first one of `tl` for `handle`.
pub open spec fn is_first_toplevel(tl: Seq<ToplevelEntry>, handle: u32, i: int) -> bool {
    &&& 0 <= i < tl.len()
    &&& tl[i].0 == handle
    &&& forall|j: int| 0 <= j < i ==> tl[j].0 != handle
}

/// Position of the first entry of `tl` for `handle`.
pub open spec fn toplevel_pos(tl: Seq<ToplevelEntry>, handle: u32) -> Option<int> {
    if exists|i: int| is_first_toplevel(tl, handle, i) {
        Some(choose|i: int| is_first_toplevel(tl, handle, i))
    } else {
        None
    }
}

/// Pair `i` is the first one of `ids` for handle key `handle`.
pub open spec fn is_first_with_handle(ids: Seq<(u32, u32)>, handle: u32, i: int) -> bool {
    &&& 0 <= i < ids.len()
    &&& ids[i].0 == handle
    &&& forall|j: int| 0 <= j < i ==> ids[j].0 != handle
}

/// The id given to `handle`: that of the first pair for it.
pub open spec fn id_of(ids: Seq<(u32, u32)>, handle: u32) -> Option<u32> {
    if exists|i: int| is_first_with_handle(ids, handle, i) {
        Some(ids[choose|i: int| is_first_with_handle(ids, handle, i)].1)
    } else {
        None
    }
}

/// Pair `i` is the first one of `ids` for id `id`.
pub open spec fn is_first_with_id(ids: Seq<(u32, u32)>, id: u32, i: int) -> bool {
    &&& 0 <= i < ids.len()
    &&& ids[i].1 == id
    &&& forall|j: int| 0 <= j < i ==> ids[j].1 != id
}

/// The handle key that holds `id`: that of the first pair for it.
pub open spec fn handle_of(ids: Seq<(u32, u32)>, id: u32) -> Option<u32> {
    if exists|i: int| is_first_with_id(ids, id, i) {
        Some(ids[choose|i: int| is_first_with_id(ids, id, i)].0)
    } else {
        None
    }
}

/// Tracks all open toplevel windows with MRU ordering.
pub struct ToplevelState {
    /// (handle key, pending info, committed info)
    pub toplevels: Vec<ToplevelEntry>,
    /// MRU order: stores handle ids from most-recently-activated to least.
    /// The front of the vec is the most recently activated window.
    pub mru_order: Vec<u32>,
    /// Monotonic counter for assigning unique ids to handles.
    pub next_id: u32,
    /// Map handle key to its assigned id.
    pub handle_ids: Vec<(u32, u32)>,
    /// Track which outputs (by output key) each toplevel is on (by handle id).
    pub handle_outputs: Vec<(u32, Vec<u32>)>,
}

/// `s` with every occurrence of `x` taken out.
pub open spec fn without(s: Seq<u32>, x: u32) -> Seq<u32> {
    s.filter(other_than(x))
}

/// The test "is not `x`".
pub open spec fn other_than(x: u32) -> spec_fn(u32) -> bool {
    |y: u32| y != x
}

/// `s` with `x` moved (or put) to the front, and kept nowhere else.
pub open spec fn to_front(s: Seq<u32>, x: u32) -> Seq<u32> {
    seq![x] + without(s, x)
}

impl ToplevelState {
    /// No windows tracked yet.
    pub fn new() -> (r: Self)
        ensures
            r.toplevels@.len() == 0,
            r.mru_order@.len() == 0,
            r.handle_ids@.len() == 0,
            r.handle_outputs@.len() == 0,
            r.next_id == 0,
    {
        ToplevelState {
            toplevels: Vec::new(),
            mru_order: Vec::new(),
            next_id: 0,
            handle_ids: Vec::new(),
            handle_outputs: Vec::new(),
        }
    }

    /// Give `handle` the next id: it is recorded with no outputs and put at
    /// the back of the MRU order.
    pub fn assign_id(&mut self, handle: u32) -> (r: u32)
        requires
            old(self).next_id < u32::MAX,
        ensures
            old(self).wf() ==> final(self).wf(),
            r == old(self).next_id,
            final(self).next_id == old(self).next_id + 1,
            final(self).handle_ids@ == old(self).handle_ids@.push((handle, r)),
            final(self).handle_outputs@.len() == old(self).handle_outputs@.len() + 1,
            final(self).handle_outputs@.take(old(self).handle_outputs@.len() as int)
                == old(self).handle_outputs@,
            final(self).handle_outputs@[old(self).handle_outputs@.len() as int].0 == r,
            final(self).handle_outputs@[old(self).handle_outputs@.len() as int].1@.len() == 0,
            final(self).mru_order@ == old(self).mru_order@.push(r),
            final(self).toplevels@ == old(self).toplevels@,
    {
        let id = self.next_id;
        self.next_id = self.next_id + 1;
        self.handle_ids.push((handle, id));
        self.handle_outputs.push((id, Vec::new()));
        // New windows go to the back of MRU
        self.mru_order.push(id);
        assert(self.handle_outputs@.take(old(self).handle_outputs@.len() as int)
            =~= old(self).handle_outputs@);
        proof {
            if old(self).wf() {
                let m = self.mru_order@;
                assert forall|i: int, j: int|
                    0 <= i < m.len() && 0 <= j < m.len() && i != j implies m[i] != m[j] by {
                    if j == m.len() - 1 {
                        assert(m[i] == old(self).mru_order@[i]);
                    } else if i == m.len() - 1 {
                        assert(m[j] == old(self).mru_order@[j]);
                    } else {
                        assert(m[i] == old(self).mru_order@[i] && m[j] == old(self).mru_order@[j]);
                    }
                }
                let h = self.handle_ids@;
                assert forall|i: int, j: int| 0 <= i < j < h.len() implies pair_id_key()(h[i])
                    != pair_id_key()(h[j]) by {
                    if j == h.len() - 1 {
                        assert(h[i] == old(self).handle_ids@[i]);
                    } else {
                        assert(h[i] == old(self).handle_ids@[i] && h[j] == old(self).handle_ids@[j]);
                    }
                }
                assert forall|i: int| 0 <= i < m.len() implies #[trigger] m[i] < self.next_id by {
                    if i < m.len() - 1 {
                        assert(m[i] == old(self).mru_order@[i]);
                    }
                }
                assert forall|i: int| 0 <= i < h.len() implies #[trigger] h[i].1 < self.next_id by {
                    if i < h.len() - 1 {
                        assert(h[i] == old(self).handle_ids@[i]);
                    }
                }
            }
        }
        id
    }

    /// The id of `handle`, if it has one.
    pub fn get_id(&self, handle: u32) -> (r: Option<u32>)
        ensures
            r == id_of(self.handle_ids@, handle),
    {
        let n = self.handle_ids.len();
        for i in 0..n
            invariant
                n == self.handle_ids@.len(),
                forall|j: int| 0 <= j < i ==> self.handle_ids@[j].0 != handle,
        {
            if self.handle_ids[i].0 == handle {
                assert(is_first_with_handle(self.handle_ids@, handle, i as int));
                return Some(self.handle_ids[i].1);
            }
        }
        None
    }

    /// The handle key that holds `id`, if any.
    pub fn handle_for_id(&self, id: u32) -> (r: Option<u32>)
        ensures
            r == handle_of(self.handle_ids@, id),
    {
        let n = self.handle_ids.len();
        for i in 0..n
            invariant
                n == self.handle_ids@.len(),
                forall|j: int| 0 <= j < i ==> self.handle_ids@[j].1 != id,
        {
            if self.handle_ids[i].1 == id {
                assert(is_first_with_id(self.handle_ids@, id, i as int));
                return Some(self.handle_ids[i].0);
            }
        }
        None
    }

    /// Position of the first toplevel entry for `handle`.
    pub fn toplevel_index(&self, handle: u32) -> (r: Option<usize>)
        ensures
            match r {
                Some(k) => toplevel_pos(self.toplevels@, handle) == Some(k as int),
                None => toplevel_pos(self.toplevels@, handle) is None,
            },
    {
        let n = self.toplevels.len();
        for i in 0..n
            invariant
                n == self.toplevels@.len(),
                forall|j: int| 0 <= j < i ==> self.toplevels@[j].0 != handle,
        {
            if self.toplevels[i].0 == handle {
                assert(is_first_toplevel(self.toplevels@, handle, i as int));
                return Some(i);
            }
        }
        None
    }

    /// Move a handle id to the front of the MRU order (most recently used).
    pub fn touch_mru_by_id(&mut self, id: u32)
        ensures
            old(self).wf() && id < old(self).next_id ==> final(self).wf(),
            final(self).mru_order@ == to_front(old(self).mru_order@, id),
            final(self).toplevels@ == old(self).toplevels@,
            final(self).handle_ids@ == old(self).handle_ids@,
            final(self).handle_outputs@ == old(self).handle_outputs@,
            final(self).next_id == old(self).next_id,
    {
        let mut order: Vec<u32> = Vec::new();
        order.push(id);
        let n = self.mru_order.len();
        for i in 0..n
            invariant
                n == self.mru_order@.len(),
                order@ == seq![id] + without(self.mru_order@.take(i as int), id),
        {
            let x = self.mru_order[i];
            let ghost prefix = self.mru_order@.take(i + 1);
            proof {
                assert(prefix =~= self.mru_order@.take(i as int).push(x));
                self.mru_order@.take(i as int).lemma_filter_push(x, other_than(id));
            }
            if x != id {
                order.push(x);
            }
            assert(order@ =~= seq![id] + without(prefix, id));
        }
        assert(self.mru_order@.take(n as int) =~= self.mru_order@);
        self.mru_order = order;
        proof {
            if old(self).wf() && id < old(self).next_id {
                lemma_to_front_wf(old(self).mru_order@, id, old(self).next_id);
            }
        }
    }

    /// Record a new title for `handle` in its pending information.
    pub fn set_title(&mut self, handle: u32, title: String)
        ensures
            old(self).wf() ==> final(self).wf(),
            titled(*old(self), *final(self), handle, title),
    {
        if let Some(k) = self.toplevel_index(handle) {
            self.toplevels[k].1.title = title;
        }
    }

    /// Record a new app id for `handle` in its pending information.
    pub fn set_app_id(&mut self, handle: u32, app_id: String)
        ensures
            old(self).wf() ==> final(self).wf(),
            app_id_set(*old(self), *final(self), handle, app_id),
    {
        if let Some(k) = self.toplevel_index(handle) {
            self.toplevels[k].1.app_id = app_id;
        }
    }

    /// Record new state flags for `handle` in its pending information.
    pub fn set_flags(&mut self, handle: u32, flags: WindowFlags)
        ensures
            old(self).wf() ==> final(self).wf(),
            flags_set(*old(self), *final(self), handle, flags),
    {
        if let Some(k) = self.toplevel_index(handle) {
            let (maximized, minimized, activated, fullscreen) = flags;
            self.toplevels[k].1.is_maximized = maximized;
            self.toplevels[k].1.is_minimized = minimized;
            self.toplevels[k].1.is_activated = activated;
            self.toplevels[k].1.is_fullscreen = fullscreen;
            assert(self.toplevels@ =~= old(self).toplevels@.update(
                k as int,
                (handle, with_flags(old(self).toplevels@[k as int].1, flags), old(self).toplevels@[k as int].2),
            ));
        }
    }

    /// The id that becomes most recently used when `handle` commits: its id,
    /// where its pending information is activated and its committed one is not.
    pub open spec fn activated_by_commit(&self, handle: u32) -> Option<u32> {
        match toplevel_pos(self.toplevels@, handle) {
            Some(k) => if self.toplevels@[k].1.is_activated && !self.toplevels@[k].2.is_activated {
                id_of(self.handle_ids@, handle)
            } else {
                None
            },
            None => None,
        }
    }

    /// The compositor is done sending changes for `handle`: its pending
    /// information becomes its committed information, and a window that just
    /// became activated moves to the front of the MRU order.
    pub fn commit(&mut self, handle: u32)
        ensures
            old(self).wf() ==> final(self).wf(),
            committed(*old(self), *final(self), handle),
    {
        // Check if this window just became activated - if so, move to front of MRU
        let pos = self.toplevel_index(handle);
        let activated_id = match pos {
            Some(k) => if self.toplevels[k].1.is_activated && !self.toplevels[k].2.is_activated {
                self.get_id(handle)
            } else {
                None
            },
            None => None,
        };
        if let Some(k) = pos {
            let pending = self.toplevels[k].1.duplicate();
            self.toplevels[k].2 = pending;
            assert(self.toplevels@ =~= old(self).toplevels@.update(
                k as int,
                (handle, old(self).toplevels@[k as int].1, old(self).toplevels@[k as int].1),
            ));
        }
        if let Some(id) = activated_id {
            proof {
                lemma_id_of_in_use(self.handle_ids@, handle);
            }
            self.touch_mru_by_id(id);
        }
    }

    /// Forget `handle`: its toplevel entries, its id pairs, and (where it had
    /// an id) that id in the MRU order and its output list.
    pub fn remove(&mut self, handle: u32)
        ensures
            old(self).wf() ==> final(self).wf(),
            removed(*old(self), *final(self), handle),
    {
        if let Some(id) = self.get_id(handle) {
            self.mru_order = keep_other_ids(&self.mru_order, id);
            let mut outputs: Vec<(u32, Vec<u32>)> = Vec::new();
            std::mem::swap(&mut outputs, &mut self.handle_outputs);
            self.handle_outputs = drop_outputs_of(outputs, id);
        }
        self.handle_ids = drop_pairs_of(&self.handle_ids, handle);
        let mut toplevels: Vec<ToplevelEntry> = Vec::new();
        std::mem::swap(&mut toplevels, &mut self.toplevels);
        self.toplevels = drop_entries_of(toplevels, handle);
        proof {
            if old(self).wf() {
                let ids = old(self).handle_ids@;
                lemma_filter_keys(ids, pair_not_for(handle), pair_id_key());
                let kept = ids.filter(pair_not_for(handle));
                assert forall|i: int| 0 <= i < kept.len() implies #[trigger] kept[i].1 < self.next_id by {
                    assert(ids.contains(kept[i]));
                }
                if let Some(id) = id_of(ids, handle) {
                    lemma_without_wf(old(self).mru_order@, id, old(self).next_id);
                } else {
                    assert(self.mru_order@ == old(self).mru_order@);
                }
            }
        }
    }

    /// Put the currently activated window (the first committed as activated)
    /// at the front of the MRU order; called once the initial window list is known.
    pub fn sort_initial_mru(&mut self)
        ensures
            old(self).wf() ==> final(self).wf(),
            final(self).mru_order@ == match first_activated(old(self).toplevels@) {
                Some(k) => match id_of(old(self).handle_ids@, old(self).toplevels@[k].0) {
                    Some(id) => to_front(old(self).mru_order@, id),
                    None => old(self).mru_order@,
                },
                None => old(self).mru_order@,
            },
            final(self).toplevels@ == old(self).toplevels@,
            final(self).handle_ids@ == old(self).handle_ids@,
            final(self).handle_outputs@ == old(self).handle_outputs@,
            final(self).next_id == old(self).next_id,
    {
        let n = self.toplevels.len();
        let mut found: Option<usize> = None;
        for i in 0..n
            invariant
                n == self.toplevels@.len(),
                found is None ==> forall|j: int| 0 <= j < i ==> !self.toplevels@[j].2.is_activated,
                found matches Some(k) ==> is_first_activated(self.toplevels@, k as int),
        {
            if found.is_none() && self.toplevels[i].2.is_activated {
                assert(is_first_activated(self.toplevels@, i as int));
                found = Some(i);
            }
        }
        if let Some(k) = found {
            let handle = self.toplevels[k].0;
            if let Some(id) = self.get_id(handle) {
                proof {
                    lemma_id_of_in_use(self.handle_ids@, handle);
                }
                self.touch_mru_by_id(id);
            }
        }
    }

    /// Position of the first output list for `id`.
    pub fn outputs_index(&self, id: u32) -> (r: Option<usize>)
        ensures
            match r {
                Some(k) => outputs_pos(self.handle_outputs@, id) == Some(k as int),
                None => outputs_pos(self.handle_outputs@, id) is None,
            },
    {
        let n = self.handle_outputs.len();
        for i in 0..n
            invariant
                n == self.handle_outputs@.len(),
                forall|j: int| 0 <= j < i ==> self.handle_outputs@[j].0 != id,
        {
            if self.handle_outputs[i].0 == id {
                assert(is_first_outputs(self.handle_outputs@, id, i as int));
                return Some(i);
            }
        }
        None
    }

    /// The position of the output list of `handle`, where it has an id and
    /// that id has an output list.
    pub open spec fn outputs_of_handle(&self, handle: u32) -> Option<int> {
        match id_of(self.handle_ids@, handle) {
            Some(id) => outputs_pos(self.handle_outputs@, id),
            None => None,
        }
    }

    /// Record that a toplevel entered an output (listed once).
    pub fn output_enter(&mut self, handle: u32, output: u32)
        ensures
            old(self).wf() ==> final(self).wf(),
            output_entered(*old(self), *final(self), handle, output),
    {
        if let Some(id) = self.get_id(handle) {
            if let Some(k) = self.outputs_index(id) {
                if !contains_key(&self.handle_outputs[k].1, output) {
                    self.handle_outputs[k].1.push(output);
                }
            }
        }
    }

    /// Record that a toplevel left an output.
    pub fn output_leave(&mut self, handle: u32, output: u32)
        ensures
            old(self).wf() ==> final(self).wf(),
            output_left(*old(self), *final(self), handle, output),
    {
        if let Some(id) = self.get_id(handle) {
            if let Some(k) = self.outputs_index(id) {
                let kept = keep_other_ids(&self.handle_outputs[k].1, output);
                self.handle_outputs[k].1 = kept;
            }
        }
    }

    /// The output of the focused (MRU-front) window: the first output its
    /// output list holds, if any.
    pub open spec fn focused_output_spec(&self) -> Option<u32> {
        if self.mru_order@.len() == 0 {
            None
        } else {
            match outputs_pos(self.handle_outputs@, self.mru_order@[0]) {
                Some(k) => if self.handle_outputs@[k].1@.len() > 0 {
                    Some(self.handle_outputs@[k].1@[0])
                } else {
                    None
                },
                None => None,
            }
        }
    }

    /// Get the output of the currently focused (MRU-front) window, if any.
    /// Returns the first output the focused window is on.
    pub fn focused_output(&self) -> (r: Option<u32>)
        ensures
            r == self.focused_output_spec(),
    {
        if self.mru_order.len() == 0 {
            return None;
        }
        let front_id = self.mru_order[0];
        match self.outputs_index(front_id) {
            Some(k) => if self.handle_outputs[k].1.len() > 0 {
                Some(self.handle_outputs[k].1[0])
            } else {
                None
            },
            None => None,
        }
    }
}

impl ToplevelState {
    /// The window that id `id` stands for in the window list: the handle that
    /// holds the id and that handle's committed information, where the handle
    /// has a toplevel entry and its committed title is not empty.
    pub open spec fn window_of(&self, id: u32) -> Option<(u32, ToplevelInfo)> {
        match handle_of(self.handle_ids@, id) {
            Some(h) => match toplevel_pos(self.toplevels@, h) {
                Some(k) => if self.toplevels@[k].2.title@.len() > 0 {
                    Some((h, self.toplevels@[k].2))
                } else {
                    None
                },
                None => None,
            },
            None => None,
        }
    }

    /// `window_of` as a function value.
    pub open spec fn window_fn(&self) -> spec_fn(u32) -> Option<(u32, ToplevelInfo)> {
        |id: u32| self.window_of(id)
    }

    /// The window list: the windows of the MRU order, in that order.
    pub open spec fn windows(&self) -> Seq<(u32, ToplevelInfo)> {
        self.mru_order@.filter_map(self.window_fn())
    }

    fn window_at(&self, id: u32) -> (r: Option<(u32, &ToplevelInfo)>)
        ensures
            match r {
                Some(w) => self.window_of(id) == Some((w.0, *w.1)),
                None => self.window_of(id) is None,
            },
    {
        match self.handle_for_id(id) {
            Some(h) => match self.toplevel_index(h) {
                Some(k) => if self.toplevels[k].2.title.as_str().unicode_len() > 0 {
                    Some((h, &self.toplevels[k].2))
                } else {
                    None
                },
                None => None,
            },
            None => None,
        }
    }

    /// Get the window list sorted by MRU order: (handle key, committed info)
    /// pairs of the windows that have a title.
    pub fn window_list(&self) -> (r: Vec<(u32, &ToplevelInfo)>)
        ensures
            r@.len() == self.windows().len(),
            forall|i: int|
                0 <= i < r@.len() ==> r@[i].0 == self.windows()[i].0 && *r@[i].1
                    == self.windows()[i].1,
    {
        let mut result: Vec<(u32, &ToplevelInfo)> = Vec::new();
        let n = self.mru_order.len();
        for i in 0..n
            invariant
                n == self.mru_order@.len(),
                result@.len() == self.mru_order@.take(i as int).filter_map(self.window_fn()).len(),
                forall|j: int|
                    0 <= j < result@.len() ==> result@[j].0 == self.mru_order@.take(i as int).filter_map(
                        self.window_fn(),
                    )[j].0 && *result@[j].1 == self.mru_order@.take(i as int).filter_map(
                        self.window_fn(),
                    )[j].1,
        {
            let id = self.mru_order[i];
            proof {
                self.mru_order@.lemma_filter_map_take_succ(self.window_fn(), i as int);
            }
            if let Some(w) = self.window_at(id) {
                result.push(w);
            }
        }
        assert(self.mru_order@.take(n as int) =~= self.mru_order@);
        result
    }

    /// Number of windows in the window list.
    pub fn window_count(&self) -> (r: usize)
        ensures
            r == self.windows().len(),
    {
        self.window_list().len()
    }

    /// A new toplevel handle appeared: give it an id, and track it with blank
    /// pending and committed information.
    pub fn add_toplevel(&mut self, handle: u32) -> (r: u32)
        requires
            old(self).next_id < u32::MAX,
        ensures
            old(self).wf() ==> final(self).wf(),
            r == old(self).next_id,
            final(self).next_id == old(self).next_id + 1,
            final(self).handle_ids@ == old(self).handle_ids@.push((handle, r)),
            final(self).handle_outputs@.len() == old(self).handle_outputs@.len() + 1,
            final(self).handle_outputs@.take(old(self).handle_outputs@.len() as int)
                == old(self).handle_outputs@,
            final(self).handle_outputs@[old(self).handle_outputs@.len() as int].0 == r,
            final(self).handle_outputs@[old(self).handle_outputs@.len() as int].1@.len() == 0,
            final(self).mru_order@ == old(self).mru_order@.push(r),
            final(self).toplevels@.len() == old(self).toplevels@.len() + 1,
            final(self).toplevels@.take(old(self).toplevels@.len() as int) == old(self).toplevels@,
            final(self).toplevels@[old(self).toplevels@.len() as int].0 == handle,
            is_blank(final(self).toplevels@[old(self).toplevels@.len() as int].1),
            is_blank(final(self).toplevels@[old(self).toplevels@.len() as int].2),
    {
        let id = self.assign_id(handle);
        self.toplevels.push((handle, ToplevelInfo::default(), ToplevelInfo::default()));
        assert(self.toplevels@.take(old(self).toplevels@.len() as int) =~= old(self).toplevels@);
        id
    }
}

/// `b` is `a` with `title` recorded as the pending title of `handle`.
pub open spec fn titled(a: ToplevelState, b: ToplevelState, handle: u32, title: String) -> bool {
    &&& b.toplevels@ == match toplevel_pos(a.toplevels@, handle) {
        Some(k) => a.toplevels@.update(
            k,
            (handle, with_title(a.toplevels@[k].1, title), a.toplevels@[k].2),
        ),
        None => a.toplevels@
    }
    &&& b.mru_order@ == a.mru_order@
    &&& b.handle_ids@ == a.handle_ids@
    &&& b.handle_outputs@ == a.handle_outputs@
    &&& b.next_id == a.next_id
}

/// `b` is `a` with `app_id` recorded as the pending app id of `handle`.
pub open spec fn app_id_set(a: ToplevelState, b: ToplevelState, handle: u32, app_id: String) -> bool {
    &&& b.toplevels@ == match toplevel_pos(a.toplevels@, handle) {
        Some(k) => a.toplevels@.update(
            k,
            (handle, with_app_id(a.toplevels@[k].1, app_id), a.toplevels@[k].2),
        ),
        None => a.toplevels@
    }
    &&& b.mru_order@ == a.mru_order@
    &&& b.handle_ids@ == a.handle_ids@
    &&& b.handle_outputs@ == a.handle_outputs@
    &&& b.next_id == a.next_id
}

/// `b` is `a` with `flags` recorded as the pending state flags of `handle`.
pub open spec fn flags_set(a: ToplevelState, b: ToplevelState, handle: u32, flags: WindowFlags) -> bool {
    &&& b.toplevels@ == match toplevel_pos(a.toplevels@, handle) {
        Some(k) => a.toplevels@.update(
            k,
            (handle, with_flags(a.toplevels@[k].1, flags), a.toplevels@[k].2),
        ),
        None => a.toplevels@
    }
    &&& b.mru_order@ == a.mru_order@
    &&& b.handle_ids@ == a.handle_ids@
    &&& b.handle_outputs@ == a.handle_outputs@
    &&& b.next_id == a.next_id
}

/// `b` is `a` after `handle` commits its pending information.
pub open spec fn committed(a: ToplevelState, b: ToplevelState, handle: u32) -> bool {
    &&& b.toplevels@ == match toplevel_pos(a.toplevels@, handle) {
        Some(k) => a.toplevels@.update(
            k,
            (handle, a.toplevels@[k].1, a.toplevels@[k].1),
        ),
        None => a.toplevels@
    }
    &&& b.mru_order@ == match a.activated_by_commit(handle) {
        Some(id) => to_front(a.mru_order@, id),
        None => a.mru_order@
    }
    &&& b.handle_ids@ == a.handle_ids@
    &&& b.handle_outputs@ == a.handle_outputs@
    &&& b.next_id == a.next_id
}

/// `b` is `a` with `handle` forgotten.
pub open spec fn removed(a: ToplevelState, b: ToplevelState, handle: u32) -> bool {
    &&& b.toplevels@ == a.toplevels@.filter(entry_not_for(handle))
    &&& b.handle_ids@ == a.handle_ids@.filter(pair_not_for(handle))
    &&& b.mru_order@ == match id_of(a.handle_ids@, handle) {
        Some(id) => without(a.mru_order@, id),
        None => a.mru_order@
    }
    &&& b.handle_outputs@ == match id_of(a.handle_ids@, handle) {
        Some(id) => a.handle_outputs@.filter(outputs_not_for(id)),
        None => a.handle_outputs@
    }
    &&& b.next_id == a.next_id
}

/// `b` is `a` after `handle` entered `output`.
pub open spec fn output_entered(a: ToplevelState, b: ToplevelState, handle: u32, output: u32) -> bool {
    &&& b.handle_outputs@.len() == a.handle_outputs@.len()
    &&& forall|i: int|
        0 <= i < a.handle_outputs@.len() && Some(i) != a.outputs_of_handle(
            handle,
        ) ==> #[trigger] b.handle_outputs@[i] == a.handle_outputs@[i]
    &&& a.outputs_of_handle(handle) matches Some(k) ==> {
        &&& b.handle_outputs@[k].0 == a.handle_outputs@[k].0
        &&& b.handle_outputs@[k].1@ == if a.handle_outputs@[k].1@.contains(output) {
            a.handle_outputs@[k].1@
        } else {
            a.handle_outputs@[k].1@.push(output)
        }
    }
    &&& b.toplevels@ == a.toplevels@
    &&& b.mru_order@ == a.mru_order@
    &&& b.handle_ids@ == a.handle_ids@
    &&& b.next_id == a.next_id
}

/// `b` is `a` after `handle` left `output`.
pub open spec fn output_left(a: ToplevelState, b: ToplevelState, handle: u32, output: u32) -> bool {
    &&& b.handle_outputs@.len() == a.handle_outputs@.len()
    &&& forall|i: int|
        0 <= i < a.handle_outputs@.len() && Some(i) != a.outputs_of_handle(
            handle,
        ) ==> #[trigger] b.handle_outputs@[i] == a.handle_outputs@[i]
    &&& a.outputs_of_handle(handle) matches Some(k) ==> {
        &&& b.handle_outputs@[k].0 == a.handle_outputs@[k].0
        &&& b.handle_outputs@[k].1@ == without(
            a.handle_outputs@[k].1@,
            output,
        )
    }
    &&& b.toplevels@ == a.toplevels@
    &&& b.mru_order@ == a.mru_order@
    &&& b.handle_ids@ == a.handle_ids@
    &&& b.next_id == a.next_id
}

/// Flags of a window: (maximized, minimized, activated, fullscreen).
pub type WindowFlags = (bool, bool, bool, bool);

/// `info` with its app id replaced.
pub open spec fn with_app_id(info: ToplevelInfo, app_id: String) -> ToplevelInfo {
    ToplevelInfo { app_id, ..info }
}

/// `info` with its state flags replaced.
pub open spec fn with_flags(info: ToplevelInfo, flags: WindowFlags) -> ToplevelInfo {
    ToplevelInfo {
        is_maximized: flags.0,
        is_minimized: flags.1,
        is_activated: flags.2,
        is_fullscreen: flags.3,
        ..info
    }
}

/// Entry `i` is the first one of `tl` whose committed information is activated.
pub open spec fn is_first_activated(tl: Seq<ToplevelEntry>, i: int) -> bool {
    &&& 0 <= i < tl.len()
    &&& tl[i].2.is_activated
    &&& forall|j: int| 0 <= j < i ==> !tl[j].2.is_activated
}

/// Position of the first entry whose committed information is activated.
pub open spec fn first_activated(tl: Seq<ToplevelEntry>) -> Option<int> {
    if exists|i: int| is_first_activated(tl, i) {
        Some(choose|i: int| is_first_activated(tl, i))
    } else {
        None
    }
}

/// Output list `i` is the first one of `ho` for `id`.
pub open spec fn is_first_outputs(ho: Seq<(u32, Vec<u32>)>, id: u32, i: int) -> bool {
    &&& 0 <= i < ho.len()
    &&& ho[i].0 == id
    &&& forall|j: int| 0 <= j < i ==> ho[j].0 != id
}

/// Position of the first output list of `ho` for `id`.
pub open spec fn outputs_pos(ho: Seq<(u32, Vec<u32>)>, id: u32) -> Option<int> {
    if exists|i: int| is_first_outputs(ho, id, i) {
        Some(choose|i: int| is_first_outputs(ho, id, i))
    } else {
        None
    }
}

/// The test "is not an entry for `handle`".
pub open spec fn entry_not_for(handle: u32) -> spec_fn(ToplevelEntry) -> bool {
    |e: ToplevelEntry| e.0 != handle
}

/// The test "is not an id pair for `handle`".
pub open spec fn pair_not_for(handle: u32) -> spec_fn((u32, u32)) -> bool {
    |p: (u32, u32)| p.0 != handle
}

/// The test "is not the output list of `id`".
pub open spec fn outputs_not_for(id: u32) -> spec_fn((u32, Vec<u32>)) -> bool {
    |e: (u32, Vec<u32>)| e.0 != id
}

fn contains_key(v: &Vec<u32>, x: u32) -> (r: bool)
    ensures
        r == v@.contains(x),
{
    let n = v.len();
    for i in 0..n
        invariant
            n == v@.len(),
            forall|j: int| 0 <= j < i ==> v@[j] != x,
    {
        if v[i] == x {
            assert(v@[i as int] == x);
            return true;
        }
    }
    false
}

fn keep_other_ids(v: &Vec<u32>, x: u32) -> (r: Vec<u32>)
    ensures
        r@ == without(v@, x),
{
    let mut kept: Vec<u32> = Vec::new();
    let n = v.len();
    for i in 0..n
        invariant
            n == v@.len(),
            kept@ == without(v@.take(i as int), x),
    {
        let y = v[i];
        proof {
            assert(v@.take(i + 1) =~= v@.take(i as int).push(y));
            v@.take(i as int).lemma_filter_push(y, other_than(x));
        }
        if y != x {
            kept.push(y);
        }
    }
    assert(v@.take(n as int) =~= v@);
    kept
}

fn drop_pairs_of(v: &Vec<(u32, u32)>, handle: u32) -> (r: Vec<(u32, u32)>)
    ensures
        r@ == v@.filter(pair_not_for(handle)),
{
    let mut kept: Vec<(u32, u32)> = Vec::new();
    let n = v.len();
    for i in 0..n
        invariant
            n == v@.len(),
            kept@ == v@.take(i as int).filter(pair_not_for(handle)),
    {
        let p = v[i];
        proof {
            assert(v@.take(i + 1) =~= v@.take(i as int).push(p));
            v@.take(i as int).lemma_filter_push(p, pair_not_for(handle));
        }
        if p.0 != handle {
            kept.push(p);
        }
    }
    assert(v@.take(n as int) =~= v@);
    kept
}

fn drop_outputs_of(v: Vec<(u32, Vec<u32>)>, id: u32) -> (r: Vec<(u32, Vec<u32>)>)
    ensures
        r@ == v@.filter(outputs_not_for(id)),
{
    let ghost all = v@;
    let mut rest = v;
    let mut kept: Vec<(u32, Vec<u32>)> = Vec::new();
    let n = rest.len();
    for i in 0..n
        invariant
            n == all.len(),
            rest@ == all.skip(i as int),
            kept@ == all.take(i as int).filter(outputs_not_for(id)),
    {
        let e = rest.remove(0);
        proof {
            assert(e == all[i as int]);
            assert(all.take(i + 1) =~= all.take(i as int).push(e));
            all.take(i as int).lemma_filter_push(e, outputs_not_for(id));
            assert(rest@ =~= all.skip(i + 1));
        }
        if e.0 != id {
            kept.push(e);
        }
    }
    assert(all.take(n as int) =~= all);
    kept
}

fn drop_entries_of(v: Vec<ToplevelEntry>, handle: u32) -> (r: Vec<ToplevelEntry>)
    ensures
        r@ == v@.filter(entry_not_for(handle)),
{
    let ghost all = v@;
    let mut rest = v;
    let mut kept: Vec<ToplevelEntry> = Vec::new();
    let n = rest.len();
    for i in 0..n
        invariant
            n == all.len(),
            rest@ == all.skip(i as int),
            kept@ == all.take(i as int).filter(entry_not_for(handle)),
    {
        let e = rest.remove(0);
        proof {
            assert(e == all[i as int]);
            assert(all.take(i + 1) =~= all.take(i as int).push(e));
            all.take(i as int).lemma_filter_push(e, entry_not_for(handle));
            assert(rest@ =~= all.skip(i + 1));
        }
        if e.0 != handle {
            kept.push(e);
        }
    }
    assert(all.take(n as int) =~= all);
    kept
}

/// `info` with its title replaced.
pub open spec fn with_title(info: ToplevelInfo, title: String) -> ToplevelInfo {
    ToplevelInfo { title, ..info }
}

/// The word that four bytes hold, least significant byte first.
pub open spec fn le_word(b: Seq<u8>) -> int {
    b[0] + b[1] * 0x100 + b[2] * 0x10000 + b[3] * 0x1000000
}

/// The word that four bytes hold, most significant byte first.
pub open spec fn be_word(b: Seq<u8>) -> int {
    b[3] + b[2] * 0x100 + b[1] * 0x10000 + b[0] * 0x1000000
}

/// Whether the machine stores a word least significant byte first. It rests
/// on vstd's `endianness`, the byte order of the hardware that runs the code:
/// one value for every call, left open by the proofs.
pub open spec fn native_little_endian() -> bool {
    vstd::endian::endianness() == vstd::endian::Endian::Little
}

/// `u32::from_ne_bytes`: its documentation promises the word that the bytes
/// hold in the machine's own (native) byte order.
#[verifier::external_body]
fn u32_from_ne_bytes(bytes: [u8; 4]) -> (r: u32)
    ensures
        r == word(bytes@, native_little_endian()),
{
    u32::from_ne_bytes(bytes)
}

/// The `i`-th four-byte chunk of `raw`.
pub open spec fn chunk(raw: Seq<u8>, i: int) -> Seq<u8> {
    raw.subrange(4 * i, 4 * i + 4)
}

/// The word that four bytes hold in the given byte order.
pub open spec fn word(b: Seq<u8>, little_endian: bool) -> int {
    if little_endian {
        le_word(b)
    } else {
        be_word(b)
    }
}

/// The words of the whole four-byte chunks of `raw`, all read in one byte
/// order (trailing bytes that make no whole word are left out).
pub open spec fn words(raw: Seq<u8>, little_endian: bool) -> Seq<u32> {
    Seq::new(raw.len() / 4, |i: int| word(chunk(raw, i), little_endian) as u32)
}

/// State flags (maximized, minimized, activated, fullscreen) of a list of
/// protocol state values: 0 maximized, 1 minimized, 2 activated, 3 fullscreen;
/// other values are ignored.
pub open spec fn flags_of(vals: Seq<u32>) -> WindowFlags {
    (vals.contains(0u32), vals.contains(1u32), vals.contains(2u32), vals.contains(3u32))
}

/// Decode the state array of a toplevel: a sequence of 32-bit values in the
/// machine's byte order (trailing bytes that do not make a whole value are
/// ignored) into (maximized, minimized, activated, fullscreen).
pub fn parse_states(raw: &[u8]) -> (r: WindowFlags)
    ensures
        r == flags_of(words(raw@, native_little_endian())),
{
    // The machine's byte order, read off how it stores the word 1.
    let probe = u32_from_ne_bytes([1u8, 0u8, 0u8, 0u8]);
    proof {
        assert([1u8, 0u8, 0u8, 0u8]@ =~= seq![1u8, 0u8, 0u8, 0u8]);
    }
    parse_states_from(raw, probe)
}

/// Decode the state array of a toplevel, given `probe`: the word 1 as the
/// machine stores it, read back in the machine's byte order. The values are
/// little-endian exactly when `probe` is 1, big-endian otherwise.
pub fn parse_states_from(raw: &[u8], probe: u32) -> (r: WindowFlags)
    ensures
        r == flags_of(words(raw@, probe == 1)),
{
    let little_endian = probe == 1;
    let ghost all = words(raw@, little_endian);
    let mut maximized = false;
    let mut minimized = false;
    let mut activated = false;
    let mut fullscreen = false;
    let n = raw.len() / 4;
    for i in 0..n
        invariant
            n == raw@.len() / 4,
            all == words(raw@, little_endian),
            (maximized, minimized, activated, fullscreen) == flags_of(all.take(i as int)),
    {
        let len = raw.len();
        assert(4 * i + 4 <= len) by (nonlinear_arith)
            requires
                i < n,
                n == len / 4,
        ;
        let p = 4 * i;
        let (b0, b1, b2, b3) = (raw[p] as u32, raw[p + 1] as u32, raw[p + 2] as u32, raw[p + 3] as u32);
        let val: u32 = if little_endian {
            b0 + b1 * 0x100 + b2 * 0x10000 + b3 * 0x1000000
        } else {
            b3 + b2 * 0x100 + b1 * 0x10000 + b0 * 0x1000000
        };
        assert(val == all[i as int]);
        if val == 0 {
            maximized = true;
        } else if val == 1 {
            minimized = true;
        } else if val == 2 {
            activated = true;
        } else if val == 3 {
            fullscreen = true;
        }
        proof {
            let prev = all.take(i as int);
            let next = all.take(i + 1);
            assert(next =~= prev.push(val));
            assert(next[i as int] == val);
            assert(forall|x: u32| #[trigger] next.contains(x) <==> prev.contains(x) || x == val) by {
                assert(forall|j: int| 0 <= j < prev.len() ==> next[j] == prev[j]);
            }
        }
    }
    assert(all.take(n as int) =~= all);
    (maximized, minimized, activated, fullscreen)
}

/// No two elements of `s` share a key.
pub open spec fn keys_distinct<A>(s: Seq<A>, key: spec_fn(A) -> int) -> bool {
    forall|i: int, j: int| 0 <= i < j < s.len() ==> key(s[i]) != key(s[j])
}

/// Filtering keeps only elements of `s`, and keeps keys that no two elements
/// share unshared.
pub proof fn lemma_filter_keys<A>(s: Seq<A>, p: spec_fn(A) -> bool, key: spec_fn(A) -> int)
    ensures
        forall|i: int| 0 <= i < s.filter(p).len() ==> s.contains(#[trigger] s.filter(p)[i]),
        keys_distinct(s, key) ==> keys_distinct(s.filter(p), key),
    decreases s.len(),
{
    reveal(Seq::filter);
    if s.len() > 0 {
        let rest = s.drop_last();
        lemma_filter_keys(rest, p, key);
        let rf = rest.filter(p);
        assert forall|i: int| 0 <= i < rf.len() implies s.contains(#[trigger] rf[i]) by {
            assert(rest.contains(rf[i]));
            let k = choose|k: int| 0 <= k < rest.len() && rest[k] == rf[i];
            assert(s[k] == rf[i]);
        }
        if p(s.last()) {
            let f = rf.push(s.last());
            assert(s.filter(p) == f);
            assert forall|i: int| 0 <= i < f.len() implies s.contains(#[trigger] f[i]) by {
                if i < rf.len() {
                    assert(f[i] == rf[i]);
                } else {
                    assert(f[i] == s[s.len() - 1]);
                }
            }
            if keys_distinct(s, key) {
                assert(keys_distinct(rest, key));
                assert forall|i: int, j: int| 0 <= i < j < f.len() implies key(f[i]) != key(f[j]) by {
                    if j < rf.len() {
                        assert(f[i] == rf[i] && f[j] == rf[j]);
                    } else {
                        assert(s.contains(rf[i]));
                        assert(rest.contains(rf[i]));
                        let k = choose|k: int| 0 <= k < rest.len() && rest[k] == rf[i];
                        assert(f[i] == s[k]);
                        assert(f[j] == s[s.len() - 1]);
                    }
                }
            }
        } else {
            assert(s.filter(p) == rf);
        }
    }
}

/// A number taken as its own key.
pub open spec fn id_key() -> spec_fn(u32) -> int {
    |x: u32| x as int
}

/// An id pair keyed by its id.
pub open spec fn pair_id_key() -> spec_fn((u32, u32)) -> int {
    |p: (u32, u32)| p.1 as int
}

impl ToplevelState {
    /// Well-formed tracking state: the MRU order lists no id twice, every id
    /// in use was handed out (is below the counter), and no two handles share an id.
    pub open spec fn wf(&self) -> bool {
        &&& self.mru_order@.no_duplicates()
        &&& forall|i: int| 0 <= i < self.mru_order@.len() ==> #[trigger] self.mru_order@[i] < self.next_id
        &&& forall|i: int| 0 <= i < self.handle_ids@.len() ==> #[trigger] self.handle_ids@[i].1 < self.next_id
        &&& keys_distinct(self.handle_ids@, pair_id_key())
    }
}

/// Moving an id that was handed out to the front keeps the MRU order
/// free of repeats and within the ids handed out; every other id keeps its place
/// relative to the rest.
pub proof fn lemma_to_front_wf(s: Seq<u32>, x: u32, n: u32)
    requires
        s.no_duplicates(),
        forall|i: int| 0 <= i < s.len() ==> #[trigger] s[i] < n,
        x < n,
    ensures
        to_front(s, x).no_duplicates(),
        forall|i: int| 0 <= i < to_front(s, x).len() ==> #[trigger] to_front(s, x)[i] < n,
        to_front(s, x)[0] == x,
        forall|y: u32| #[trigger] to_front(s, x).contains(y) <==> y == x || s.contains(y),
{
    let w = without(s, x);
    lemma_filter_keys(s, other_than(x), id_key());
    broadcast use vstd::seq_lib::group_filter_ensures;
    assert(keys_distinct(s, id_key())) by {
        assert forall|i: int, j: int| 0 <= i < j < s.len() implies id_key()(s[i]) != id_key()(s[j]) by {
            assert(s[i] != s[j]);
        }
    }
    let t = to_front(s, x);
    assert(t =~= seq![x] + w);
    assert forall|i: int, j: int| 0 <= i < t.len() && 0 <= j < t.len() && i != j implies t[i] != t[j] by {
        if i == 0 {
            assert(other_than(x)(w[j - 1]));
        } else if j == 0 {
            assert(other_than(x)(w[i - 1]));
        } else {
            if i < j {
                assert(id_key()(w[i - 1]) != id_key()(w[j - 1]));
            } else {
                assert(id_key()(w[j - 1]) != id_key()(w[i - 1]));
            }
        }
    }
    assert forall|i: int| 0 <= i < t.len() implies #[trigger] t[i] < n by {
        if i > 0 {
            assert(s.contains(w[i - 1]));
        }
    }
    assert forall|y: u32| #[trigger] t.contains(y) <==> y == x || s.contains(y) by {
        if t.contains(y) && y != x {
            let i = choose|i: int| 0 <= i < t.len() && t[i] == y;
            assert(s.contains(w[i - 1]));
        }
        if y == x {
            assert(t[0] == y);
        } else if s.contains(y) {
            let i = choose|i: int| 0 <= i < s.len() && s[i] == y;
            assert(w.contains(s[i]));
            let j = choose|j: int| 0 <= j < w.len() && w[j] == y;
            assert(t[j + 1] == y);
        }
    }
}

/// Removing an id keeps the MRU order free of repeats and within the ids handed out.
pub proof fn lemma_without_wf(s: Seq<u32>, x: u32, n: u32)
    requires
        s.no_duplicates(),
        forall|i: int| 0 <= i < s.len() ==> #[trigger] s[i] < n,
    ensures
        without(s, x).no_duplicates(),
        forall|i: int| 0 <= i < without(s, x).len() ==> #[trigger] without(s, x)[i] < n,
        !without(s, x).contains(x),
{
    let w = without(s, x);
    lemma_filter_keys(s, other_than(x), id_key());
    broadcast use vstd::seq_lib::group_filter_ensures;
    assert(keys_distinct(s, id_key())) by {
        assert forall|i: int, j: int| 0 <= i < j < s.len() implies id_key()(s[i]) != id_key()(s[j]) by {
            assert(s[i] != s[j]);
        }
    }
    assert forall|i: int, j: int| 0 <= i < w.len() && 0 <= j < w.len() && i != j implies w[i] != w[j] by {
        if i < j {
            assert(id_key()(w[i]) != id_key()(w[j]));
        } else {
            assert(id_key()(w[j]) != id_key()(w[i]));
        }
    }
    assert forall|i: int| 0 <= i < w.len() implies #[trigger] w[i] < n by {
        assert(s.contains(w[i]));
    }
    if w.contains(x) {
        let i = choose|i: int| 0 <= i < w.len() && w[i] == x;
        assert(other_than(x)(w[i]));
    }
}

/// Every two elements of `t` occur in `s` in the same order: `t` keeps the
/// order that its elements have in `s`.
pub open spec fn keeps_order_of(t: Seq<u32>, s: Seq<u32>) -> bool {
    forall|i: int, j: int|
        #![trigger t[i], t[j]]
        0 <= i < j < t.len() ==> exists|k: int, l: int|
            #![trigger s[k], s[l]]
            0 <= k < l < s.len() && s[k] == t[i] && s[l] == t[j]
}

/// Filtering a sequence keeps the order of what it keeps.
pub proof fn lemma_filter_keeps_order(s: Seq<u32>, p: spec_fn(u32) -> bool)
    ensures
        keeps_order_of(s.filter(p), s),
    decreases s.len(),
{
    reveal(Seq::filter);
    if s.len() > 0 {
        let rest = s.drop_last();
        lemma_filter_keeps_order(rest, p);
        lemma_filter_keys(rest, p, id_key());
        let rf = rest.filter(p);
        let f = s.filter(p);
        assert forall|i: int, j: int| #![trigger f[i], f[j]] 0 <= i < j < f.len() implies exists|k: int, l: int|
            #![trigger s[k], s[l]]
            0 <= k < l < s.len() && s[k] == f[i] && s[l] == f[j] by {
            if j < rf.len() {
                assert(f[i] == rf[i] && f[j] == rf[j]);
                let (k, l) = choose|k: int, l: int|
                    #![trigger rest[k], rest[l]]
                    0 <= k < l < rest.len() && rest[k] == rf[i] && rest[l] == rf[j];
                assert(s[k] == rest[k] && s[l] == rest[l]);
            } else {
                assert(f == rf.push(s.last()));
                assert(f[i] == rf[i]);
                assert(rest.contains(rf[i]));
                let k = choose|k: int| 0 <= k < rest.len() && rest[k] == rf[i];
                assert(s[k] == rest[k]);
                assert(s[s.len() - 1] == f[j]);
            }
        }
    }
}

/// Forgetting a window takes its id (if it had one) out of the MRU order and
/// nothing else: every other id stays, and the ids keep the order they had.
pub proof fn lemma_remove_keeps_mru_order(a: ToplevelState, b: ToplevelState, handle: u32)
    requires
        removed(a, b, handle),
    ensures
        forall|x: u32| #[trigger]
            b.mru_order@.contains(x) <==> a.mru_order@.contains(x) && id_of(a.handle_ids@, handle)
                != Some(x),
        keeps_order_of(b.mru_order@, a.mru_order@),
        a.mru_order@.no_duplicates() ==> b.mru_order@.no_duplicates(),
{
    match id_of(a.handle_ids@, handle) {
        Some(id) => {
            assert(b.mru_order@ == without(a.mru_order@, id));
            lemma_filter_keeps_order(a.mru_order@, other_than(id));
            lemma_without_contains(a.mru_order@, id);
            if a.mru_order@.no_duplicates() {
                lemma_without_no_dups(a.mru_order@, id);
            }
        },
        None => {
            assert(b.mru_order@ == a.mru_order@);
            let keep_all = |x: u32| true;
            lemma_filter_keeps_order(a.mru_order@, keep_all);
            lemma_filter_all(a.mru_order@, keep_all);
            assert(keeps_order_of(b.mru_order@, a.mru_order@));
        },
    }
}

/// Moving an id to the front keeps every other id, in the order the ids had,
/// behind it, and the id nowhere else.
pub proof fn lemma_to_front_keeps_order(s: Seq<u32>, x: u32)
    ensures
        to_front(s, x)[0] == x,
        forall|y: u32| #[trigger] to_front(s, x).contains(y) <==> y == x || s.contains(y),
        !to_front(s, x).drop_first().contains(x),
        keeps_order_of(to_front(s, x).drop_first(), s),
        s.no_duplicates() ==> to_front(s, x).no_duplicates(),
{
    let w = without(s, x);
    let t = to_front(s, x);
    assert(t.drop_first() =~= w);
    lemma_filter_keeps_order(s, other_than(x));
    lemma_without_contains(s, x);
    assert forall|y: u32| #[trigger] t.contains(y) <==> y == x || s.contains(y) by {
        if t.contains(y) && y != x {
            let k = choose|k: int| 0 <= k < t.len() && t[k] == y;
            assert(w[k - 1] == y);
            assert(w.contains(y));
        }
        if y == x {
            assert(t[0] == y);
        } else if s.contains(y) {
            assert(w.contains(y));
            let k = choose|k: int| 0 <= k < w.len() && w[k] == y;
            assert(t[k + 1] == y);
        }
    }
    if s.no_duplicates() {
        lemma_without_no_dups(s, x);
        assert forall|i: int, j: int| 0 <= i < t.len() && 0 <= j < t.len() && i != j implies t[i]
            != t[j] by {
            if i == 0 {
                assert(t[j] == w[j - 1]);
                assert(w.contains(w[j - 1]));
            } else if j == 0 {
                assert(t[i] == w[i - 1]);
                assert(w.contains(w[i - 1]));
            } else {
                assert(t[i] == w[i - 1] && t[j] == w[j - 1]);
            }
        }
    }
}

/// Filtering by a test that everything passes keeps the whole sequence.
proof fn lemma_filter_all(s: Seq<u32>, p: spec_fn(u32) -> bool)
    requires
        forall|x: u32| #[trigger] p(x),
    ensures
        s.filter(p) == s,
    decreases s.len(),
{
    reveal(Seq::filter);
    if s.len() > 0 {
        lemma_filter_all(s.drop_last(), p);
        assert(s.drop_last().push(s.last()) =~= s);
    }
}

/// What remains of a sequence once an id is taken out: the elements other than it.
proof fn lemma_without_contains(s: Seq<u32>, x: u32)
    ensures
        forall|y: u32| #[trigger] without(s, x).contains(y) <==> s.contains(y) && y != x,
{
    let w = without(s, x);
    assert forall|y: u32| #[trigger] w.contains(y) <==> s.contains(y) && y != x by {
        if s.contains(y) && y != x {
            let k = choose|k: int| 0 <= k < s.len() && s[k] == y;
            s.lemma_filter_contains(other_than(x), k);
        }
        if w.contains(y) {
            s.lemma_filter_contains_rev(other_than(x), y);
            let k = choose|k: int| 0 <= k < w.len() && w[k] == y;
            s.lemma_filter_pred(other_than(x), k);
        }
    }
}

/// Removing an id from a sequence without repeats leaves none.
proof fn lemma_without_no_dups(s: Seq<u32>, x: u32)
    requires
        s.no_duplicates(),
    ensures
        without(s, x).no_duplicates(),
{
    let w = without(s, x);
    lemma_filter_keys(s, other_than(x), id_key());
    assert(keys_distinct(s, id_key())) by {
        assert forall|i: int, j: int| 0 <= i < j < s.len() implies id_key()(s[i]) != id_key()(s[j]) by {
            assert(s[i] != s[j]);
        }
    }
    assert forall|i: int, j: int| 0 <= i < w.len() && 0 <= j < w.len() && i != j implies w[i] != w[j] by {
        if i < j {
            assert(id_key()(w[i]) != id_key()(w[j]));
        } else {
            assert(id_key()(w[j]) != id_key()(w[i]));
        }
    }
}

/// The id that `id_of` finds for a handle is one of the ids in use.
pub proof fn lemma_id_of_in_use(ids: Seq<(u32, u32)>, handle: u32)
    requires
        id_of(ids, handle) is Some,
    ensures
        exists|i: int| 0 <= i < ids.len() && ids[i].1 == id_of(ids, handle)->0,
{
    let i = choose|i: int| is_first_with_handle(ids, handle, i);
    assert(ids[i].1 == id_of(ids, handle)->0);
}

/// The first element that `filter_map` keeps from a sequence whose first
/// element is kept is that element's image.
pub proof fn lemma_filter_map_head<A, B>(s: Seq<A>, f: spec_fn(A) -> Option<B>)
    requires
        s.len() > 0,
        f(s[0]) is Some,
    ensures
        s.filter_map(f).len() > 0,
        s.filter_map(f)[0] == f(s[0])->0,
    decreases s.len(),
{
    if s.len() == 1 {
        assert(s.drop_last().filter_map(f) =~= Seq::<B>::empty());
    } else {
        lemma_filter_map_head(s.drop_last(), f);
        assert(s.drop_last()[0] == s[0]);
    }
}

/// When no two pairs share an id, the handle found for an id is the one that
/// was given it.
pub proof fn lemma_handle_of_unique_id(ids: Seq<(u32, u32)>, i: int)
    requires
        0 <= i < ids.len(),
        keys_distinct(ids, pair_id_key()),
    ensures
        handle_of(ids, ids[i].1) == Some(ids[i].0),
{
    assert forall|j: int| 0 <= j < i implies ids[j].1 != ids[i].1 by {
        assert(pair_id_key()(ids[j]) != pair_id_key()(ids[i]));
    }
    assert(is_first_with_id(ids, ids[i].1, i));
}

/// Activating a window brings it to the front: when a handle commits pending
/// information that is activated (its committed information was not), its id
/// becomes the first of the MRU order, and if its pending title is not empty,
/// it heads the window list, with the information just committed.
pub proof fn lemma_activation_heads_window_list(a: ToplevelState, b: ToplevelState, handle: u32)
    requires
        a.wf(),
        committed(a, b, handle),
        a.activated_by_commit(handle) is Some,
    ensures
        b.mru_order@[0] == a.activated_by_commit(handle)->0,
        ({
            let k = toplevel_pos(a.toplevels@, handle)->0;
            a.toplevels@[k].1.title@.len() > 0 ==> b.windows().len() > 0 && b.windows()[0] == (
                handle,
                a.toplevels@[k].1,
            )
        }),
{
    let id = a.activated_by_commit(handle)->0;
    let k = toplevel_pos(a.toplevels@, handle)->0;
    lemma_id_of_in_use(a.handle_ids@, handle);
    lemma_to_front_wf(a.mru_order@, id, a.next_id);
    if a.toplevels@[k].1.title@.len() > 0 {
        let i = choose|i: int| is_first_with_handle(a.handle_ids@, handle, i);
        lemma_handle_of_unique_id(a.handle_ids@, i);
        assert(handle_of(b.handle_ids@, id) == Some(handle));
        assert(is_first_toplevel(a.toplevels@, handle, k));
        assert(is_first_toplevel(b.toplevels@, handle, k));
        assert(toplevel_pos(b.toplevels@, handle) == Some(k));
        assert(b.window_of(id) == Some((handle, a.toplevels@[k].1)));
        lemma_filter_map_head(b.mru_order@, b.window_fn());
    }
}

/// Every window of the window list has a title, and the list is no longer
/// than the MRU order.
pub proof fn lemma_windows_titled(st: ToplevelState)
    ensures
        st.windows().len() <= st.mru_order@.len(),
        forall|i: int| 0 <= i < st.windows().len() ==> (#[trigger] st.windows()[i]).1.title@.len() > 0,
{
    lemma_filter_map_titled(st.mru_order@, st);
}

proof fn lemma_filter_map_titled(s: Seq<u32>, st: ToplevelState)
    ensures
        s.filter_map(st.window_fn()).len() <= s.len(),
        forall|i: int|
            0 <= i < s.filter_map(st.window_fn()).len() ==> (#[trigger] s.filter_map(
                st.window_fn(),
            )[i]).1.title@.len() > 0,
    decreases s.len(),
{
    if s.len() > 0 {
        lemma_filter_map_titled(s.drop_last(), st);
        let rest = s.drop_last().filter_map(st.window_fn());
        let f = s.filter_map(st.window_fn());
        match st.window_fn()(s.last()) {
            Some(w) => {
                assert(f == rest + seq![w]);
                assert forall|i: int| 0 <= i < f.len() implies (#[trigger] f[i]).1.title@.len() > 0 by {
                    if i < rest.len() {
                        assert(f[i] == rest[i]);
                    }
                }
            },
            None => {
                assert(f == rest);
            },
        }
    }
}

} // verus!
