use vstd::prelude::*;
use vstd::string::StringExecFns;
use crate::types::same_chars;

verus! {

/// How a window is shown.
#[derive(Debug, Clone, Copy, PartialEq, Eq, Structural)]
pub enum WindowState {
    /// Half size, in its slot.
    Minimized,
    /// Spanning the whole compositor.
    Maximized,
    /// Not shown.
    Hidden,
    /// Being closed.
    Closing,
}

/// The state that a name gives: `Minimized`, `Maximized`, `Hidden` or `Closing`.
pub open spec fn state_from_name(name: Seq<char>) -> Option<WindowState> {
    if name == "Minimized"@ {
        Some(WindowState::Minimized)
    } else if name == "Maximized"@ {
        Some(WindowState::Maximized)
    } else if name == "Hidden"@ {
        Some(WindowState::Hidden)
    } else if name == "Closing"@ {
        Some(WindowState::Closing)
    } else {
        None
    }
}

impl WindowState {
    /// Parses a window state name.
    pub fn from_name(name: &str) -> (r: Option<WindowState>)
        ensures
            r == state_from_name(name@),
    {
        if same_chars(name, "Minimized") {
            Some(WindowState::Minimized)
        } else if same_chars(name, "Maximized") {
            Some(WindowState::Maximized)
        } else if same_chars(name, "Hidden") {
            Some(WindowState::Hidden)
        } else if same_chars(name, "Closing") {
            Some(WindowState::Closing)
        } else {
            None
        }
    }
}

/// One of the two places a window can occupy.
#[derive(Debug, Clone, Copy, PartialEq, Eq, Structural)]
pub enum CompositorSlot {
    Left,
    Right,
}

/// An open window.
#[derive(Debug, Clone)]
pub struct WindowInstance {
    pub id: String,
    /// What the window shows.
    pub content_key: String,
    pub title: String,
    pub state: WindowState,
    pub slot: CompositorSlot,
    /// Stacking order, from 1.
    pub z_order: u32,
    /// The element that opened the window.
    pub source_element_id: Option<String>,
    /// The domain that opened the window.
    pub source_domain_id: Option<String>,
}

impl WindowInstance {
    /// A copy of the window.
    pub fn duplicate(&self) -> (r: WindowInstance)
        ensures
            r == *self,
    {
        WindowInstance {
            id: self.id.clone(),
            content_key: self.content_key.clone(),
            title: self.title.clone(),
            state: self.state,
            slot: self.slot,
            z_order: self.z_order,
            source_element_id: match &self.source_element_id {
                Some(s) => Some(s.clone()),
                None => None,
            },
            source_domain_id: match &self.source_domain_id {
                Some(s) => Some(s.clone()),
                None => None,
            },
        }
    }
}

/// Relies on `uuid::Uuid::new_v4` and its `Display`: a random id in the hyphenated form of
/// 36 characters.
#[verifier::external_body]
fn fresh_window_id() -> (r: String)
    ensures
        r@.len() == 36,
{
    uuid::Uuid::new_v4().to_string()
}

/// `w` with stacking order `z`.
pub open spec fn restacked(w: WindowInstance, z: u32) -> WindowInstance {
    WindowInstance { z_order: z, ..w }
}

/// The stacking order of the window at position `k` of the stack.
pub open spec fn z_at(k: int) -> u32 {
    if k + 1 < 0xFFFF_FFFF { (k + 1) as u32 } else { 0xFFFF_FFFF }
}

fn z_for(k: usize) -> (r: u32)
    ensures
        r == z_at(k as int),
{
    if k < 0xFFFF_FFFE { (k + 1) as u32 } else { 0xFFFF_FFFF }
}

/// The open windows, the order they were opened in, and the two slots.
pub struct StateManager {
    /// Open windows, ids distinct, in the order of `window_stack`.
    pub windows: Vec<WindowInstance>,
    /// Ids of the open windows, oldest first.
    pub window_stack: Vec<String>,
    /// Id of the window in the left slot.
    pub left_slot: Option<String>,
    /// Id of the window in the right slot.
    pub right_slot: Option<String>,
}

impl StateManager {
    pub open spec fn wf(&self) -> bool {
        &&& self.window_stack@.len() == self.windows@.len()
        &&& forall|k: int| 0 <= k < self.windows@.len() ==> #[trigger] self.window_stack@[k] == self.windows@[k].id
        &&& forall|i: int, j: int|
            0 <= i < self.windows@.len() && 0 <= j < self.windows@.len() && i != j ==> #[trigger] self.windows@[i].id@
                != #[trigger] self.windows@[j].id@
    }

    pub open spec fn has_window(&self, id: Seq<char>) -> bool {
        exists|k: int| 0 <= k < self.windows@.len() && #[trigger] self.windows@[k].id@ == id
    }

    pub open spec fn window_pos(&self, id: Seq<char>) -> int {
        choose|k: int| 0 <= k < self.windows@.len() && #[trigger] self.windows@[k].id@ == id
    }

    pub open spec fn slot_of(&self, slot: CompositorSlot) -> Option<String> {
        match slot {
            CompositorSlot::Left => self.left_slot,
            CompositorSlot::Right => self.right_slot,
        }
    }

    pub fn new() -> (r: StateManager)
        ensures
            r.wf(),
            r.windows@.len() == 0,
            r.left_slot is None,
            r.right_slot is None,
    {
        StateManager { windows: Vec::new(), window_stack: Vec::new(), left_slot: None, right_slot: None }
    }

    fn find_window(&self, id: &str) -> (r: Option<usize>)
        requires
            self.wf(),
        ensures
            match r {
                Some(k) => k < self.windows@.len() && self.windows@[k as int].id@ == id@ && self.has_window(id@)
                    && self.window_pos(id@) == k,
                None => !self.has_window(id@),
            },
    {
        let mut k: usize = 0;
        while k < self.windows.len()
            invariant
                self.wf(),
                k <= self.windows@.len(),
                forall|j: int| 0 <= j < k ==> #[trigger] self.windows@[j].id@ != id@,
            decreases self.windows@.len() - k,
        {
            if same_chars(self.windows[k].id.as_str(), id) {
                proof {
                    let p = self.window_pos(id@);
                    assert(self.windows@[k as int].id@ == id@);
                    assert(0 <= p < self.windows@.len() && self.windows@[p].id@ == id@);
                }
                return Some(k);
            }
            k = k + 1;
        }
        None
    }

    /// The slot a new window takes: the left one if free, else the right one if free.
    pub open spec fn free_slot(&self) -> Option<CompositorSlot> {
        if self.left_slot is None {
            Some(CompositorSlot::Left)
        } else if self.right_slot is None {
            Some(CompositorSlot::Right)
        } else {
            None
        }
    }

    /// Opens a window with id `id` in the first free slot, minimized and on top. Fails when both
    /// slots are taken or the id is already open.
    pub fn spawn_window_with_id(
        &mut self,
        id: String,
        content_key: String,
        source_element_id: Option<String>,
        source_domain_id: Option<String>,
    ) -> (r: Option<WindowInstance>)
        requires
            old(self).wf(),
        ensures
            final(self).wf(),
            (old(self).free_slot() is None || old(self).has_window(id@)) ==> r is None && *final(self) == *old(self),
            old(self).free_slot() is Some && !old(self).has_window(id@) ==> {
                let slot = old(self).free_slot()->0;
                &&& r matches Some(w) && w.id == id && w.content_key == content_key && w.title@ == "Window - "@
                    + content_key@ && w.state == WindowState::Minimized && w.slot == slot && w.z_order == z_at(
                    old(self).windows@.len() as int,
                ) && w.source_element_id == source_element_id && w.source_domain_id == source_domain_id
                &&& r is Some && final(self).windows@ == old(self).windows@.push(r->0)
                &&& final(self).slot_of(slot) == Some(id)
                &&& slot == CompositorSlot::Left ==> final(self).right_slot == old(self).right_slot
                &&& slot == CompositorSlot::Right ==> final(self).left_slot == old(self).left_slot
            },
    {
        let slot = if self.left_slot.is_none() {
            CompositorSlot::Left
        } else if self.right_slot.is_none() {
            CompositorSlot::Right
        } else {
            return None;
        };
        if self.find_window(id.as_str()).is_some() {
            return None;
        }
        let title = String::from_str("Window - ").concat(content_key.as_str());
        let z_order = z_for(self.window_stack.len());
        let window = WindowInstance {
            id: id.clone(),
            content_key,
            title,
            state: WindowState::Minimized,
            slot,
            z_order,
            source_element_id,
            source_domain_id,
        };
        match slot {
            CompositorSlot::Left => self.left_slot = Some(id.clone()),
            CompositorSlot::Right => self.right_slot = Some(id.clone()),
        }
        let copy = window.duplicate();
        self.windows.push(window);
        self.window_stack.push(id);
        Some(copy)
    }

    /// Opens a window with a fresh random id in the first free slot; none when both are taken.
    pub fn spawn_window(
        &mut self,
        content_key: String,
        source_element_id: Option<String>,
        source_domain_id: Option<String>,
    ) -> (r: Option<WindowInstance>)
        requires
            old(self).wf(),
        ensures
            final(self).wf(),
            old(self).free_slot() is None ==> r is None,
            r is None ==> *final(self) == *old(self),
            r matches Some(w) ==> old(self).free_slot() == Some(w.slot) && final(self).windows@ == old(self).windows@.push(w)
                && w.content_key == content_key && w.state == WindowState::Minimized,
    {
        if self.left_slot.is_some() && self.right_slot.is_some() {
            return None;
        }
        let id = fresh_window_id();
        self.spawn_window_with_id(id, content_key, source_element_id, source_domain_id)
    }

    /// Sets every window's stacking order to its position in the stack, from 1.
    fn normalize_stack(&mut self)
        requires
            old(self).wf(),
        ensures
            final(self).wf(),
            final(self).window_stack == old(self).window_stack,
            final(self).left_slot == old(self).left_slot,
            final(self).right_slot == old(self).right_slot,
            final(self).windows@.len() == old(self).windows@.len(),
            forall|k: int|
                0 <= k < old(self).windows@.len() ==> #[trigger] final(self).windows@[k] == restacked(
                    old(self).windows@[k],
                    z_at(k),
                ),
    {
        let ghost old_ws = self.windows@;
        let mut k: usize = 0;
        while k < self.windows.len()
            invariant
                k <= self.windows@.len(),
                self.windows@.len() == old_ws.len(),
                old_ws == old(self).windows@,
                old(self).wf(),
                self.window_stack == old(self).window_stack,
                self.left_slot == old(self).left_slot,
                self.right_slot == old(self).right_slot,
                forall|j: int| 0 <= j < k ==> #[trigger] self.windows@[j] == restacked(old_ws[j], z_at(j)),
                forall|j: int| k <= j < old_ws.len() ==> #[trigger] self.windows@[j] == old_ws[j],
            decreases old_ws.len() - k,
        {
            let mut w = self.windows.remove(k);
            w.z_order = z_for(k);
            self.windows.insert(k, w);
            k = k + 1;
        }
        proof {
            assert forall|i: int, j: int|
                0 <= i < self.windows@.len() && 0 <= j < self.windows@.len() && i != j implies #[trigger] self.windows@[i].id@
                != #[trigger] self.windows@[j].id@ by {
                assert(self.windows@[i].id == old_ws[i].id && self.windows@[j].id == old_ws[j].id);
            }
            assert forall|j: int| 0 <= j < self.windows@.len() implies #[trigger] self.window_stack@[j]
                == self.windows@[j].id by {
                assert(self.windows@[j].id == old_ws[j].id);
            }
        }
    }

    /// Closes a window: frees its slot, drops it from the stack and renumbers the rest.
    /// Returns the closed window, or none when no window has that id.
    pub fn close_window(&mut self, id: &str) -> (r: Option<WindowInstance>)
        requires
            old(self).wf(),
        ensures
            final(self).wf(),
            names_id(old(self).left_slot, id@) ==> final(self).left_slot is None && final(self).right_slot == old(
                self,
            ).right_slot,
            !names_id(old(self).left_slot, id@) && names_id(old(self).right_slot, id@) ==> final(self).right_slot is None
                && final(self).left_slot == old(self).left_slot,
            !names_id(old(self).left_slot, id@) && !names_id(old(self).right_slot, id@) ==> final(self).left_slot == old(
                self,
            ).left_slot && final(self).right_slot == old(self).right_slot,
            !old(self).has_window(id@) ==> r is None && final(self).windows@.len() == old(self).windows@.len() && forall|
                k: int,
            | 0 <= k < old(self).windows@.len() ==> #[trigger] final(self).windows@[k] == restacked(
                old(self).windows@[k],
                z_at(k),
            ),
            old(self).has_window(id@) ==> {
                let p = old(self).window_pos(id@);
                let rest = old(self).windows@.remove(p);
                &&& r == Some(old(self).windows@[p])
                &&& final(self).windows@.len() == rest.len()
                &&& forall|k: int|
                    0 <= k < rest.len() ==> #[trigger] final(self).windows@[k] == restacked(rest[k], z_at(k))
            },
    {
        let in_left = match &self.left_slot {
            Some(s) => same_chars(s.as_str(), id),
            None => false,
        };
        let in_right = match &self.right_slot {
            Some(s) => same_chars(s.as_str(), id),
            None => false,
        };
        if in_left {
            self.left_slot = None;
        } else if in_right {
            self.right_slot = None;
        }
        match self.find_window(id) {
            None => {
                self.normalize_stack();
                None
            },
            Some(p) => {
                let ghost before = self.windows@;
                let ghost stack_before = self.window_stack@;
                self.window_stack.remove(p);
                let removed = self.windows.remove(p);
                proof {
                    assert forall|k: int| 0 <= k < self.windows@.len() implies #[trigger] self.window_stack@[k]
                        == self.windows@[k].id by {
                        let k2 = if k < p { k } else { k + 1 };
                        assert(self.windows@[k] == before[k2]);
                        assert(self.window_stack@[k] == stack_before[k2]);
                    }
                    assert forall|i: int, j: int|
                        0 <= i < self.windows@.len() && 0 <= j < self.windows@.len() && i != j implies #[trigger] self.windows@[i].id@
                        != #[trigger] self.windows@[j].id@ by {
                        let i2 = if i < p { i } else { i + 1 };
                        let j2 = if j < p { j } else { j + 1 };
                        assert(self.windows@[i] == before[i2] && self.windows@[j] == before[j2]);
                    }
                }
                self.normalize_stack();
                Some(removed)
            },
        }
    }

    /// Sets the state of a window; returns the updated window, or none when no window has that id.
    pub fn set_window_state(&mut self, id: &str, new_state: WindowState) -> (r: Option<WindowInstance>)
        requires
            old(self).wf(),
        ensures
            final(self).wf(),
            final(self).window_stack == old(self).window_stack,
            final(self).left_slot == old(self).left_slot,
            final(self).right_slot == old(self).right_slot,
            !old(self).has_window(id@) ==> r is None && final(self).windows@ == old(self).windows@,
            old(self).has_window(id@) ==> {
                let p = old(self).window_pos(id@);
                let w = WindowInstance { state: new_state, ..old(self).windows@[p] };
                &&& r == Some(w)
                &&& final(self).windows@ == old(self).windows@.update(p, w)
            },
    {
        match self.find_window(id) {
            None => None,
            Some(p) => {
                let ghost before = self.windows@;
                let mut w = self.windows.remove(p);
                w.state = new_state;
                let copy = w.duplicate();
                self.windows.insert(p, w);
                proof {
                    assert(self.windows@ =~= before.update(p as int, copy));
                    assert forall|i: int, j: int|
                        0 <= i < self.windows@.len() && 0 <= j < self.windows@.len() && i != j implies #[trigger] self.windows@[i].id@
                        != #[trigger] self.windows@[j].id@ by {
                        assert(self.windows@[i].id == before[i].id && self.windows@[j].id == before[j].id);
                    }
                    assert forall|k: int| 0 <= k < self.windows@.len() implies #[trigger] self.window_stack@[k]
                        == self.windows@[k].id by {
                        assert(self.windows@[k].id == before[k].id);
                    }
                }
                Some(copy)
            },
        }
    }

    /// Whether a slot is free.
    pub fn is_slot_available(&self, slot: CompositorSlot) -> (r: bool)
        ensures
            r == (self.slot_of(slot) is None),
    {
        match slot {
            CompositorSlot::Left => self.left_slot.is_none(),
            CompositorSlot::Right => self.right_slot.is_none(),
        }
    }

    /// The window in a slot, if the slot holds the id of an open window.
    pub fn get_window_in_slot(&self, slot: CompositorSlot) -> (r: Option<&WindowInstance>)
        requires
            self.wf(),
        ensures
            match self.slot_of(slot) {
                Some(id) => if self.has_window(id@) {
                    r == Some(&self.windows@[self.window_pos(id@)])
                } else {
                    r is None
                },
                None => r is None,
            },
    {
        let id = match slot {
            CompositorSlot::Left => &self.left_slot,
            CompositorSlot::Right => &self.right_slot,
        };
        match id {
            Some(id) => match self.find_window(id.as_str()) {
                Some(p) => Some(&self.windows[p]),
                None => None,
            },
            None => None,
        }
    }

    /// Copies of all open windows, oldest first.
    pub fn get_all_windows(&self) -> (r: Vec<WindowInstance>)
        ensures
            r@ == self.windows@,
    {
        let mut out: Vec<WindowInstance> = Vec::new();
        let mut k: usize = 0;
        while k < self.windows.len()
            invariant
                k <= self.windows@.len(),
                out@ == self.windows@.subrange(0, k as int),
            decreases self.windows@.len() - k,
        {
            out.push(self.windows[k].duplicate());
            k = k + 1;
            assert(out@ =~= self.windows@.subrange(0, k as int));
        }
        assert(out@ =~= self.windows@);
        out
    }
}

/// `o` holds a string equal to `id`.
pub open spec fn names_id(o: Option<String>, id: Seq<char>) -> bool {
    o matches Some(s) && s@ == id
}

} // verus!
