use vstd::prelude::*;
use crate::types::{ElementType, GateDirection, LayoutMode, Rect, same_chars};

verus! {

/// A focusable element of a domain.
#[derive(Debug, Clone)]
pub struct ButtonElement {
    pub id: String,
    pub bounds: Option<Rect>,
    pub enabled: bool,
    /// Position used by grid and list layouts.
    pub order: usize,
}

/// A region of focusable elements with its own layout.
#[derive(Debug, Clone)]
pub struct Domain {
    pub id: String,
    /// Kept as information only.
    pub parent_id: Option<String>,
    /// The elements, sorted by `order`, ids distinct.
    pub buttons: Vec<ButtonElement>,
    /// The index the last directional move landed on.
    pub current_index: usize,
    pub layout_mode: LayoutMode,
    /// Where the domain stands on screen, for moves between domains.
    pub bounds: Option<Rect>,
    /// Edges through which the cursor may not leave.
    pub boundary_lock: Vec<GateDirection>,
    /// The element that held the cursor when it was unregistered, until it comes back.
    pub pending_element: Option<String>,
}

impl ButtonElement {
    /// A copy of the element.
    pub fn duplicate(&self) -> (r: ButtonElement)
        ensures
            r == *self,
    {
        ButtonElement { id: self.id.clone(), bounds: self.bounds, enabled: self.enabled, order: self.order }
    }
}

impl Domain {
    /// `self` holds the same values as `d`.
    pub open spec fn same_as(self, d: Domain) -> bool {
        &&& self.id == d.id
        &&& self.parent_id == d.parent_id
        &&& self.buttons@ == d.buttons@
        &&& self.current_index == d.current_index
        &&& self.layout_mode == d.layout_mode
        &&& self.bounds == d.bounds
        &&& self.boundary_lock@ == d.boundary_lock@
        &&& self.pending_element == d.pending_element
    }

    /// A copy of the domain.
    pub fn duplicate(&self) -> (r: Domain)
        ensures
            r.same_as(*self),
    {
        let mut buttons: Vec<ButtonElement> = Vec::new();
        let mut i: usize = 0;
        while i < self.buttons.len()
            invariant
                i <= self.buttons@.len(),
                buttons@ == self.buttons@.subrange(0, i as int),
            decreases self.buttons@.len() - i,
        {
            buttons.push(self.buttons[i].duplicate());
            i = i + 1;
            assert(buttons@ =~= self.buttons@.subrange(0, i as int));
        }
        assert(buttons@ =~= self.buttons@);
        let mut lock: Vec<GateDirection> = Vec::new();
        let mut j: usize = 0;
        while j < self.boundary_lock.len()
            invariant
                j <= self.boundary_lock@.len(),
                lock@ == self.boundary_lock@.subrange(0, j as int),
            decreases self.boundary_lock@.len() - j,
        {
            lock.push(self.boundary_lock[j]);
            j = j + 1;
            assert(lock@ =~= self.boundary_lock@.subrange(0, j as int));
        }
        assert(lock@ =~= self.boundary_lock@);
        let parent_id = match &self.parent_id {
            Some(p) => Some(p.clone()),
            None => None,
        };
        let pending_element = match &self.pending_element {
            Some(p) => Some(p.clone()),
            None => None,
        };
        Domain {
            id: self.id.clone(),
            parent_id,
            buttons,
            current_index: self.current_index,
            layout_mode: self.layout_mode,
            bounds: self.bounds,
            boundary_lock: lock,
            pending_element,
        }
    }

    pub open spec fn ids_distinct(self) -> bool {
        forall|i: int, j: int|
            0 <= i < self.buttons@.len() && 0 <= j < self.buttons@.len() && i != j
                ==> #[trigger] self.buttons@[i].id@ != #[trigger] self.buttons@[j].id@
    }

    pub open spec fn sorted(self) -> bool {
        forall|i: int, j: int|
            0 <= i < j < self.buttons@.len() ==> #[trigger] self.buttons@[i].order <= #[trigger] self.buttons@[j].order
    }

    /// Element ids distinct and elements sorted by `order`.
    pub open spec fn wf(self) -> bool {
        self.ids_distinct() && self.sorted()
    }

    pub open spec fn has_button(self, id: Seq<char>) -> bool {
        exists|i: int| 0 <= i < self.buttons@.len() && #[trigger] self.buttons@[i].id@ == id
    }

    /// The index of the element with the given id, where there is one.
    pub open spec fn button_pos(self, id: Seq<char>) -> int {
        choose|i: int| 0 <= i < self.buttons@.len() && #[trigger] self.buttons@[i].id@ == id
    }

    /// A domain as registration creates it.
    pub open spec fn is_fresh(self, id: Seq<char>, parent_id: Option<String>, layout_mode: LayoutMode) -> bool {
        &&& self.id@ == id
        &&& self.parent_id == parent_id
        &&& self.buttons@.len() == 0
        &&& self.current_index == 0
        &&& self.layout_mode == layout_mode
        &&& self.bounds is None
        &&& self.boundary_lock@.len() == 0
        &&& self.pending_element is None
    }

    pub fn new(id: String, parent_id: Option<String>, layout_mode: LayoutMode) -> (r: Domain)
        ensures
            r.is_fresh(id@, parent_id, layout_mode),
            r.id == id,
            r.wf(),
    {
        let ghost gid = id@;
        Domain {
            id,
            parent_id,
            buttons: Vec::new(),
            current_index: 0,
            layout_mode,
            bounds: None,
            boundary_lock: Vec::new(),
            pending_element: None,
        }
    }

    /// The number of focusable elements.
    pub fn element_count(&self) -> (r: usize)
        ensures
            r == self.buttons@.len(),
    {
        self.buttons.len()
    }

    /// The kind and id of the element at `index`, if there is one.
    pub fn get_element_at_index(&self, index: usize) -> (r: Option<(ElementType, String)>)
        ensures
            index < self.buttons@.len() ==> r == Some((ElementType::Button, self.buttons@[index as int].id)),
            index >= self.buttons@.len() ==> r is None,
    {
        if index < self.buttons.len() {
            Some((ElementType::Button, self.buttons[index].id.clone()))
        } else {
            None
        }
    }

    /// The index of the first element with id `element_id`.
    pub fn find_element_index(&self, element_id: &str) -> (r: Option<usize>)
        ensures
            match r {
                Some(i) => i < self.buttons@.len() && self.buttons@[i as int].id@ == element_id@ && forall|j: int|
                    0 <= j < i ==> #[trigger] self.buttons@[j].id@ != element_id@,
                None => !self.has_button(element_id@),
            },
    {
        let mut i: usize = 0;
        while i < self.buttons.len()
            invariant
                i <= self.buttons@.len(),
                forall|j: int| 0 <= j < i ==> #[trigger] self.buttons@[j].id@ != element_id@,
            decreases self.buttons@.len() - i,
        {
            if same_chars(self.buttons[i].id.as_str(), element_id) {
                return Some(i);
            }
            i = i + 1;
        }
        None
    }

    /// Whether the cursor may leave through `direction`.
    pub fn can_exit_direction(&self, direction: &GateDirection) -> (r: bool)
        ensures
            r == !self.boundary_lock@.contains(*direction),
    {
        let mut i: usize = 0;
        while i < self.boundary_lock.len()
            invariant
                i <= self.boundary_lock@.len(),
                forall|j: int| 0 <= j < i ==> self.boundary_lock@[j] != *direction,
            decreases self.boundary_lock@.len() - i,
        {
            if self.boundary_lock[i] == *direction {
                return false;
            }
            i = i + 1;
        }
        true
    }
}

} // verus!
