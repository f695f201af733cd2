use vstd::prelude::*;
use vstd::string::StringExecFns;
use crate::domain::{ButtonElement, Domain};
use crate::layout::{grid_target, list_target, navigate_grid, navigate_list, same_index};
use crate::spatial::{find_nearest_in_direction, is_first_best, nearest_ok};
use crate::types::{
    edge_name, same_chars, CursorPosition, ElementType, LayoutMode, ListDirection, NavigationResult, Rect, WASDKey,
};

verus! {

/// The id of the domain that takes the focus when the active domain goes away.
pub const FALLBACK_DOMAIN_ID: &'static str = "osbar-nav";

/// Domain ids in `s` are distinct.
pub open spec fn ids_distinct(s: Seq<Domain>) -> bool {
    forall|i: int, j: int|
        0 <= i < s.len() && 0 <= j < s.len() && i != j ==> #[trigger] s[i].id@ != #[trigger] s[j].id@
}

/// Some domain of `s` has id `id`.
pub open spec fn seq_has(s: Seq<Domain>, id: Seq<char>) -> bool {
    exists|i: int| 0 <= i < s.len() && #[trigger] s[i].id@ == id
}

/// The index of the domain of `s` with id `id`, where there is one.
pub open spec fn seq_pos(s: Seq<Domain>, id: Seq<char>) -> int {
    choose|i: int| 0 <= i < s.len() && #[trigger] s[i].id@ == id
}

/// `o` holds a string equal to `id`.
pub open spec fn names(o: Option<String>, id: Seq<char>) -> bool {
    o matches Some(s) && s@ == id
}

/// `c` is a cursor on element `e` of domain `d`.
pub open spec fn cursor_at(c: Option<CursorPosition>, d: Seq<char>, e: Seq<char>) -> bool {
    c matches Some(p) && p.domain_id@ == d && p.element_id@ == e && p.element_type == ElementType::Button
}

/// The id held by an optional string, or the empty sequence.
pub open spec fn id_or_empty(o: Option<String>) -> Seq<char> {
    match o {
        Some(s) => s@,
        None => Seq::empty(),
    }
}

/// `b` is `a` with `x` inserted where the order keeps the sequence sorted, after the elements
/// of equal order.
pub open spec fn sorted_insert(a: Seq<ButtonElement>, x: ButtonElement, b: Seq<ButtonElement>) -> bool {
    exists|k: int|
        0 <= k <= a.len() && b == a.insert(k, x) && (forall|j: int| 0 <= j < k ==> #[trigger] a[j].order <= x.order)
            && (forall|j: int| k <= j < a.len() ==> #[trigger] a[j].order > x.order)
}

/// `d2` is `d` with other elements and restoration record.
pub open spec fn same_but_elements(d: Domain, d2: Domain) -> bool {
    &&& d2.id == d.id
    &&& d2.parent_id == d.parent_id
    &&& d2.current_index == d.current_index
    &&& d2.layout_mode == d.layout_mode
    &&& d2.bounds == d.bounds
    &&& d2.boundary_lock == d.boundary_lock
}

/// The elements of `bs` among the first `n`, other than the one at `cur`, that have bounds,
/// as spatial candidates.
pub open spec fn sibling_candidates(bs: Seq<ButtonElement>, cur: int, n: int) -> Seq<(String, Rect)>
    decreases n,
{
    if n <= 0 {
        Seq::empty()
    } else {
        let rest = sibling_candidates(bs, cur, n - 1);
        let b = bs[n - 1];
        if n - 1 != cur && b.bounds is Some {
            rest.push((b.id, b.bounds->0))
        } else {
            rest
        }
    }
}

/// The domains among the first `n` of `ds`, other than `current`, that have bounds and at least
/// one element, as spatial candidates.
pub open spec fn domain_candidates(ds: Seq<Domain>, current: Seq<char>, n: int) -> Seq<(String, Rect)>
    decreases n,
{
    if n <= 0 {
        Seq::empty()
    } else {
        let rest = domain_candidates(ds, current, n - 1);
        let d = ds[n - 1];
        if d.id@ != current && d.bounds is Some && d.buttons@.len() > 0 {
            rest.push((d.id, d.bounds->0))
        } else {
            rest
        }
    }
}

/// `r` is a spatial move from element `cur` of `d` along `key`: none when that element has no
/// bounds, else the element named by a nearest-candidate result among its siblings.
pub open spec fn spatial_ok(d: Domain, cur: int, key: WASDKey, r: Option<usize>) -> bool {
    match d.buttons@[cur].bounds {
        None => r is None,
        Some(o) => exists|n: Option<String>|
            #[trigger] nearest_ok(o, sibling_candidates(d.buttons@, cur, d.buttons@.len() as int), key, n) && match n {
                None => r is None,
                Some(s) => r == Some(d.button_pos(s@) as usize),
            },
    }
}

/// `r` is the move that the layout of `d` makes from index `cur` along `key`; a grid of no
/// columns does not move.
pub open spec fn step_ok(d: Domain, cur: int, key: WASDKey, r: Option<usize>) -> bool {
    match d.layout_mode {
        LayoutMode::Grid { columns } => if columns == 0 {
            r is None
        } else {
            same_index(r, grid_target(cur, d.buttons@.len() as int, columns as int, key))
        },
        LayoutMode::List { direction } => same_index(
            r,
            list_target(cur, d.buttons@.len() as int, direction == ListDirection::Vertical, key),
        ),
        LayoutMode::Spatial => spatial_ok(d, cur, key, r),
    }
}

/// The message `a` + `id` + `b`.
pub open spec fn message(a: &str, id: Seq<char>, b: &str) -> Seq<char> {
    a@ + id + b@
}

/// `c` is a cursor inside domain `d`.
pub open spec fn cursor_in(c: Option<CursorPosition>, d: Seq<char>) -> bool {
    c matches Some(p) && p.domain_id@ == d
}

fn owned(s: &str) -> (r: String)
    ensures
        r@ == s@,
{
    String::from_str(s)
}

fn compose(a: &str, id: &str, b: &str) -> (r: String)
    ensures
        r@ == message(a, id@, b),
{
    String::from_str(a).concat(id).concat(b)
}

fn compose2(a: &str, x: &str, b: &str, y: &str, c: &str) -> (r: String)
    ensures
        r@ == a@ + x@ + b@ + y@ + c@,
{
    String::from_str(a).concat(x).concat(b).concat(y).concat(c)
}

pub proof fn lemma_pos(s: Seq<Domain>, k: int)
    requires
        ids_distinct(s),
        0 <= k < s.len(),
    ensures
        seq_has(s, s[k].id@),
        seq_pos(s, s[k].id@) == k,
{
    assert(s[k].id@ == s[k].id@);
    let j = seq_pos(s, s[k].id@);
    assert(0 <= j < s.len() && s[j].id@ == s[k].id@);
}

proof fn lemma_button_pos(d: Domain, k: int)
    requires
        d.ids_distinct(),
        0 <= k < d.buttons@.len(),
    ensures
        d.has_button(d.buttons@[k].id@),
        d.button_pos(d.buttons@[k].id@) == k,
{
    assert(d.buttons@[k].id@ == d.buttons@[k].id@);
    let j = d.button_pos(d.buttons@[k].id@);
    assert(0 <= j < d.buttons@.len() && d.buttons@[j].id@ == d.buttons@[k].id@);
}

/// Replacing a domain by one with the same id keeps every lookup but that one.
pub proof fn lemma_update(s: Seq<Domain>, i: int, d: Domain, x: Seq<char>)
    requires
        ids_distinct(s),
        0 <= i < s.len(),
        d.id@ == s[i].id@,
    ensures
        ids_distinct(s.update(i, d)),
        seq_has(s.update(i, d), x) == seq_has(s, x),
        seq_has(s, x) && x == s[i].id@ ==> s.update(i, d)[seq_pos(s.update(i, d), x)] == d,
        seq_has(s, x) && x != s[i].id@ ==> s.update(i, d)[seq_pos(s.update(i, d), x)] == s[seq_pos(s, x)],
{
    let t = s.update(i, d);
    assert(ids_distinct(t)) by {
        assert forall|a: int, b: int| 0 <= a < t.len() && 0 <= b < t.len() && a != b implies #[trigger] t[a].id@
            != #[trigger] t[b].id@ by {
            assert(t[a].id@ == s[a].id@ && t[b].id@ == s[b].id@);
        }
    }
    if seq_has(s, x) {
        let k = seq_pos(s, x);
        lemma_pos(s, k);
        assert(t[k].id@ == x);
        lemma_pos(t, k);
    }
    if seq_has(t, x) {
        let k = seq_pos(t, x);
        assert(s[k].id@ == x);
    }
}

/// Removing a domain keeps every other lookup.
pub proof fn lemma_remove(s: Seq<Domain>, i: int, x: Seq<char>)
    requires
        ids_distinct(s),
        0 <= i < s.len(),
    ensures
        ids_distinct(s.remove(i)),
        seq_has(s.remove(i), x) == (seq_has(s, x) && x != s[i].id@),
        seq_has(s, x) && x != s[i].id@ ==> s.remove(i)[seq_pos(s.remove(i), x)] == s[seq_pos(s, x)],
{
    let t = s.remove(i);
    assert(ids_distinct(t)) by {
        assert forall|a: int, b: int| 0 <= a < t.len() && 0 <= b < t.len() && a != b implies #[trigger] t[a].id@
            != #[trigger] t[b].id@ by {
            let a2 = if a < i { a } else { a + 1 };
            let b2 = if b < i { b } else { b + 1 };
            assert(t[a] == s[a2] && t[b] == s[b2]);
        }
    }
    if seq_has(s, x) && x != s[i].id@ {
        let k = seq_pos(s, x);
        lemma_pos(s, k);
        let k2 = if k < i { k } else { k - 1 };
        assert(t[k2] == s[k]);
        lemma_pos(t, k2);
    }
    if seq_has(t, x) {
        let k = seq_pos(t, x);
        let k2 = if k < i { k } else { k + 1 };
        assert(t[k] == s[k2]);
        lemma_pos(s, k2);
        lemma_pos(s, i);
    }
}

/// Appending a domain with a new id keeps every lookup and adds its own.
pub proof fn lemma_push(s: Seq<Domain>, d: Domain, x: Seq<char>)
    requires
        ids_distinct(s),
        !seq_has(s, d.id@),
    ensures
        ids_distinct(s.push(d)),
        seq_has(s.push(d), x) == (seq_has(s, x) || x == d.id@),
        x == d.id@ ==> s.push(d)[seq_pos(s.push(d), x)] == d,
        seq_has(s, x) ==> s.push(d)[seq_pos(s.push(d), x)] == s[seq_pos(s, x)],
{
    let t = s.push(d);
    assert(ids_distinct(t)) by {
        assert forall|a: int, b: int| 0 <= a < t.len() && 0 <= b < t.len() && a != b implies #[trigger] t[a].id@
            != #[trigger] t[b].id@ by {
            if a < s.len() && b < s.len() {
                assert(t[a] == s[a] && t[b] == s[b]);
            } else if a < s.len() {
                assert(t[a] == s[a]);
            } else {
                assert(t[b] == s[b]);
            }
        }
    }
    if seq_has(s, x) {
        let k = seq_pos(s, x);
        assert(t[k] == s[k]);
        lemma_pos(t, k);
    }
    if x == d.id@ {
        assert(t[s.len() as int] == d);
        lemma_pos(t, s.len() as int);
    }
    if seq_has(t, x) && x != d.id@ {
        let k = seq_pos(t, x);
        assert(t[k] == s[k]);
    }
}

/// Every sibling candidate names an element of the sequence.
proof fn lemma_sibling_from(bs: Seq<ButtonElement>, cur: int, n: int, j: int)
    requires
        0 <= n <= bs.len(),
        0 <= j < sibling_candidates(bs, cur, n).len(),
    ensures
        exists|k: int| 0 <= k < n && #[trigger] bs[k].id == sibling_candidates(bs, cur, n)[j].0,
    decreases n,
{
    let rest = sibling_candidates(bs, cur, n - 1);
    if j < rest.len() {
        lemma_sibling_from(bs, cur, n - 1, j);
        let k = choose|k: int| 0 <= k < n - 1 && #[trigger] bs[k].id == rest[j].0;
        assert(bs[k].id == sibling_candidates(bs, cur, n)[j].0);
    } else {
        assert(bs[n - 1].id == sibling_candidates(bs, cur, n)[j].0);
    }
}

/// What `register_domain` does, from state `s` to state `t` with result `r`.
pub open spec fn register_domain_post(
    s: DomainNavigator,
    t: DomainNavigator,
    domain_id: Seq<char>,
    parent_id: Option<String>,
    layout_mode: LayoutMode,
    r: Result<(), String>,
) -> bool {
    &&& (s.has_domain(domain_id) ==> (r matches Err(m) && m@ == message("Domain '", domain_id, "' already exists")
            && t == s))
    &&& (!s.has_domain(domain_id) ==> {
            &&& r is Ok
            &&& t.domains@ == s.domains@.push(t.domains@.last())
            &&& t.domains@.last().is_fresh(domain_id, parent_id, layout_mode)
            &&& t.cursor_position == s.cursor_position
            &&& if names(s.saved_active_domain, domain_id) {
                names(t.active_domain_id, domain_id) && t.saved_active_domain is None
            } else if s.active_domain_id is None {
                names(t.active_domain_id, domain_id) && t.saved_active_domain
                    == s.saved_active_domain
            } else {
                t.active_domain_id == s.active_domain_id && t.saved_active_domain
                    == s.saved_active_domain
            }
        })
}

/// What `unregister_domain` does, from state `s` to state `t` with result `r`.
pub open spec fn unregister_domain_post(
    s: DomainNavigator,
    t: DomainNavigator,
    domain_id: Seq<char>,
    r: Result<Option<CursorPosition>, String>,
) -> bool {
    &&& (!s.has_domain(domain_id) ==> (r matches Err(m) && m@ == message("Domain '", domain_id, "' not found")
            && t == s))
    &&& (s.has_domain(domain_id) ==> {
            let i = seq_pos(s.domains@, domain_id);
            let was_active = names(s.active_domain_id, domain_id);
            let fb = FALLBACK_DOMAIN_ID@;
            let recover = was_active && fb != domain_id && s.has_domain(fb)
                && s.domain_of(fb).buttons@.len() > 0;
            &&& t.domains@ == s.domains@.remove(i)
            &&& was_active ==> names(t.saved_active_domain, domain_id)
            &&& recover ==> names(t.active_domain_id, fb) && cursor_at(
                t.cursor_position,
                fb,
                s.domain_of(fb).buttons@[0].id@,
            ) && r == Ok::<Option<CursorPosition>, String>(t.cursor_position)
            &&& was_active && !recover ==> t.active_domain_id is None && t.cursor_position is None
                && r == Ok::<Option<CursorPosition>, String>(None)
            &&& !was_active ==> {
                &&& t.active_domain_id == s.active_domain_id
                &&& t.saved_active_domain == s.saved_active_domain
                &&& r == Ok::<Option<CursorPosition>, String>(None)
                &&& t.cursor_position == if cursor_in(s.cursor_position, domain_id) {
                    None
                } else {
                    s.cursor_position
                }
            }
        })
}

/// What `register_button` does, from state `s` to state `t` with result `r`.
pub open spec fn register_button_post(
    s: DomainNavigator,
    t: DomainNavigator,
    domain_id: Seq<char>,
    button_id: Seq<char>,
    bounds: Option<Rect>,
    order: usize,
    r: Result<(), String>,
) -> bool {
    &&& (!s.has_domain(domain_id) ==> (r matches Err(m) && m@ == message("Domain '", domain_id, "' not found")
            && t == s))
    &&& (s.has_domain(domain_id) && s.domain_of(domain_id).has_button(button_id) ==> (r matches Err(m)
            && m@ == "Button '"@ + button_id + "' already exists in domain '"@ + domain_id + "'"@ && t == s))
    &&& (s.has_domain(domain_id) && !s.domain_of(domain_id).has_button(button_id) ==> {
            let i = seq_pos(s.domains@, domain_id);
            let d = s.domains@[i];
            let d2 = t.domains@[i];
            let active = names(s.active_domain_id, domain_id);
            let restore = active && (d.pending_element matches Some(p) && p@ == button_id);
            let first = active && d.pending_element is None && s.cursor_position is None
                && d.buttons@.len() == 0;
            &&& r is Ok
            &&& t.domains@ == s.domains@.update(i, d2)
            &&& same_but_elements(d, d2)
            &&& d2.buttons@.len() == d.buttons@.len() + 1
            &&& exists|b: ButtonElement|
                b.id@ == button_id && b.bounds == bounds && b.enabled && b.order == order && sorted_insert(
                    d.buttons@,
                    b,
                    d2.buttons@,
                )
            &&& t.active_domain_id == s.active_domain_id
            &&& t.saved_active_domain == s.saved_active_domain
            &&& restore ==> cursor_at(t.cursor_position, domain_id, button_id) && d2.pending_element is None
            &&& first ==> cursor_at(t.cursor_position, domain_id, button_id) && d2.pending_element is None
            &&& !restore && !first ==> t.cursor_position == s.cursor_position
                && d2.pending_element == d.pending_element
        })
}

/// What `unregister_button` does, from state `s` to state `t` with result `r`.
pub open spec fn unregister_button_post(
    s: DomainNavigator,
    t: DomainNavigator,
    domain_id: Seq<char>,
    button_id: Seq<char>,
    r: Result<(), String>,
) -> bool {
    &&& (!s.has_domain(domain_id) ==> (r matches Err(m) && m@ == message("Domain '", domain_id, "' not found")
            && t == s))
    &&& (s.has_domain(domain_id) && !s.domain_of(domain_id).has_button(button_id) ==> (r matches Err(m)
            && m@ == "Button '"@ + button_id + "' not found in domain '"@ + domain_id + "'"@ && t == s))
    &&& (s.has_domain(domain_id) && s.domain_of(domain_id).has_button(button_id) ==> {
            let i = seq_pos(s.domains@, domain_id);
            let d = s.domains@[i];
            let d2 = t.domains@[i];
            let focused = cursor_at(s.cursor_position, domain_id, button_id);
            &&& r is Ok
            &&& t.domains@ == s.domains@.update(i, d2)
            &&& same_but_elements(d, d2)
            &&& d2.buttons@ == d.buttons@.remove(d.button_pos(button_id))
            &&& t.active_domain_id == s.active_domain_id
            &&& t.saved_active_domain == s.saved_active_domain
            &&& focused ==> t.cursor_position is None && names(d2.pending_element, button_id)
            &&& !focused ==> t.cursor_position == s.cursor_position && d2.pending_element
                == d.pending_element
        })
}

/// `c` stands on element `e` of domain `d`.
pub open spec fn on_element(c: Option<CursorPosition>, d: Seq<char>, e: Seq<char>) -> bool {
    c matches Some(p) && p.domain_id@ == d && p.element_id@ == e
}

/// Whether the focus arrived on element `element_id` of `domain_id` between two readings of
/// the cursor: it stands there now and did not before.
pub fn focus_arrived(
    before: &Option<CursorPosition>,
    after: &Option<CursorPosition>,
    domain_id: &str,
    element_id: &str,
) -> (r: bool)
    ensures
        r == (on_element(*after, domain_id@, element_id@) && !on_element(*before, domain_id@, element_id@)),
{
    let now = match after {
        Some(c) => same_chars(c.domain_id.as_str(), domain_id) && same_chars(c.element_id.as_str(), element_id),
        None => false,
    };
    let earlier = match before {
        Some(c) => same_chars(c.domain_id.as_str(), domain_id) && same_chars(c.element_id.as_str(), element_id),
        None => false,
    };
    now && !earlier
}

/// The navigation engine: the registry of domains, the active domain, the single cursor and
/// the record used to restore the focus when domains and elements come back.
pub struct DomainNavigator {
    /// Registered domains, in order of registration.
    pub domains: Vec<Domain>,
    pub active_domain_id: Option<String>,
    pub cursor_position: Option<CursorPosition>,
    /// The domain that was active when it was unregistered.
    pub saved_active_domain: Option<String>,
}

impl DomainNavigator {
    pub open spec fn has_domain(&self, id: Seq<char>) -> bool {
        seq_has(self.domains@, id)
    }

    pub open spec fn domain_of(&self, id: Seq<char>) -> Domain {
        self.domains@[seq_pos(self.domains@, id)]
    }

    /// The cursor saved for a domain, waiting for its element to come back.
    pub open spec fn saved_cursor(&self, id: Seq<char>) -> Option<Seq<char>> {
        if self.has_domain(id) {
            match self.domain_of(id).pending_element {
                Some(e) => Some(e@),
                None => None,
            }
        } else {
            None
        }
    }

    /// The cursor, if any, stands on an element that is registered.
    pub open spec fn cursor_valid(&self) -> bool {
        self.cursor_position matches Some(c) ==> self.has_domain(c.domain_id@) && self.domain_of(
            c.domain_id@,
        ).has_button(c.element_id@) && c.element_type == ElementType::Button
    }

    pub open spec fn wf(&self) -> bool {
        &&& ids_distinct(self.domains@)
        &&& forall|i: int| 0 <= i < self.domains@.len() ==> (#[trigger] self.domains@[i]).wf()
        &&& self.cursor_valid()
        &&& (self.active_domain_id matches Some(a) ==> self.has_domain(a@))
    }

    pub fn new() -> (r: DomainNavigator)
        ensures
            r.wf(),
            r.domains@.len() == 0,
            r.active_domain_id is None,
            r.cursor_position is None,
            r.saved_active_domain is None,
    {
        DomainNavigator {
            domains: Vec::new(),
            active_domain_id: None,
            cursor_position: None,
            saved_active_domain: None,
        }
    }

    fn find_domain(&self, id: &str) -> (r: Option<usize>)
        requires
            ids_distinct(self.domains@),
        ensures
            match r {
                Some(i) => i < self.domains@.len() && self.domains@[i as int].id@ == id@ && self.has_domain(id@)
                    && seq_pos(self.domains@, id@) == i,
                None => !self.has_domain(id@),
            },
    {
        let mut i: usize = 0;
        while i < self.domains.len()
            invariant
                i <= self.domains@.len(),
                ids_distinct(self.domains@),
                forall|j: int| 0 <= j < i ==> #[trigger] self.domains@[j].id@ != id@,
            decreases self.domains@.len() - i,
        {
            if same_chars(self.domains[i].id.as_str(), id) {
                proof {
                    lemma_pos(self.domains@, i as int);
                }
                return Some(i);
            }
            i = i + 1;
        }
        None
    }

    /// A domain replaced by one with the same id and elements keeps the navigator well formed.
    proof fn lemma_same_elements(old_nav: &DomainNavigator, new_nav: &DomainNavigator, i: int, d: Domain)
        requires
            old_nav.wf(),
            0 <= i < old_nav.domains@.len(),
            d.id@ == old_nav.domains@[i].id@,
            d.buttons@ == old_nav.domains@[i].buttons@,
            new_nav.domains@ == old_nav.domains@.update(i, d),
            new_nav.cursor_position == old_nav.cursor_position,
            new_nav.active_domain_id == old_nav.active_domain_id,
        ensures
            new_nav.wf(),
    {
        let s = old_nav.domains@;
        lemma_update(s, i, d, s[i].id@);
        assert(d.wf()) by {
            assert(s[i].wf());
        }
        if new_nav.cursor_position is Some {
            lemma_update(s, i, d, new_nav.cursor_position->0.domain_id@);
        }
        if new_nav.active_domain_id is Some {
            lemma_update(s, i, d, new_nav.active_domain_id->0@);
        }
    }

    /// Registers an empty domain. A domain that was active when it went away becomes active
    /// again; otherwise the first domain registered while none is active becomes active.
    pub fn register_domain(&mut self, domain_id: String, parent_id: Option<String>, layout_mode: LayoutMode) -> (r:
        Result<(), String>)
        requires
            old(self).wf(),
        ensures
            final(self).wf(),
            register_domain_post(*old(self), *final(self), domain_id@, parent_id, layout_mode, r),

    {
        if self.find_domain(domain_id.as_str()).is_some() {
            return Err(compose("Domain '", domain_id.as_str(), "' already exists"));
        }
        let ghost old_nav = *self;
        let was_saved = match &self.saved_active_domain {
            Some(s) => same_chars(s.as_str(), domain_id.as_str()),
            None => false,
        };
        let active_id = domain_id.clone();
        let domain = Domain::new(domain_id, parent_id, layout_mode);
        let ghost gd = domain;
        self.domains.push(domain);
        proof {
            lemma_push(old_nav.domains@, gd, gd.id@);
            if self.cursor_position is Some {
                lemma_push(old_nav.domains@, gd, self.cursor_position->0.domain_id@);
            }
            if self.active_domain_id is Some {
                lemma_push(old_nav.domains@, gd, self.active_domain_id->0@);
            }
        }
        if was_saved {
            self.active_domain_id = Some(active_id);
            self.saved_active_domain = None;
        } else if self.active_domain_id.is_none() {
            self.active_domain_id = Some(active_id);
        }
        Ok(())
    }

    /// Updates the screen bounds of a domain.
    pub fn update_domain_bounds(&mut self, domain_id: &str, bounds: Option<Rect>) -> (r: Result<(), String>)
        requires
            old(self).wf(),
        ensures
            final(self).wf(),
            !old(self).has_domain(domain_id@) ==> (r matches Err(m) && m@ == message("Domain '", domain_id@, "' not found")
                && *final(self) == *old(self)),
            old(self).has_domain(domain_id@) ==> {
                let i = seq_pos(old(self).domains@, domain_id@);
                let d = old(self).domains@[i];
                &&& r is Ok
                &&& final(self).domains@ == old(self).domains@.update(i, Domain { bounds: bounds, ..d })
                &&& final(self).cursor_position == old(self).cursor_position
                &&& final(self).active_domain_id == old(self).active_domain_id
                &&& final(self).saved_active_domain == old(self).saved_active_domain
            },
    {
        let i = match self.find_domain(domain_id) {
            Some(i) => i,
            None => return Err(compose("Domain '", domain_id, "' not found")),
        };
        let ghost old_nav = *self;
        let mut d = self.domains.remove(i);
        d.bounds = bounds;
        self.domains.insert(i, d);
        proof {
            assert(self.domains@ =~= old_nav.domains@.update(i as int, d));
            Self::lemma_same_elements(&old_nav, self, i as int, d);
        }
        Ok(())
    }

    /// Changes the layout mode of a domain.
    pub fn update_layout_mode(&mut self, domain_id: &str, layout_mode: LayoutMode) -> (r: Result<(), String>)
        requires
            old(self).wf(),
        ensures
            final(self).wf(),
            !old(self).has_domain(domain_id@) ==> (r matches Err(m) && m@ == message("Domain '", domain_id@, "' not found")
                && *final(self) == *old(self)),
            old(self).has_domain(domain_id@) ==> {
                let i = seq_pos(old(self).domains@, domain_id@);
                let d = old(self).domains@[i];
                &&& r is Ok
                &&& final(self).domains@ == old(self).domains@.update(i, Domain { layout_mode: layout_mode, ..d })
                &&& final(self).cursor_position == old(self).cursor_position
                &&& final(self).active_domain_id == old(self).active_domain_id
                &&& final(self).saved_active_domain == old(self).saved_active_domain
            },
    {
        let i = match self.find_domain(domain_id) {
            Some(i) => i,
            None => return Err(compose("Domain '", domain_id, "' not found")),
        };
        let ghost old_nav = *self;
        let mut d = self.domains.remove(i);
        d.layout_mode = layout_mode;
        self.domains.insert(i, d);
        proof {
            assert(self.domains@ =~= old_nav.domains@.update(i as int, d));
            Self::lemma_same_elements(&old_nav, self, i as int, d);
        }
        Ok(())
    }

    /// Removes a domain. A cursor inside it is cleared. If it was the active domain, it is
    /// remembered as such, and the focus falls back to the first element of the fallback domain
    /// when that domain is registered, is another domain and holds an element; the new cursor is
    /// then returned.
    pub fn unregister_domain(&mut self, domain_id: &str) -> (r: Result<Option<CursorPosition>, String>)
        requires
            old(self).wf(),
        ensures
            final(self).wf(),
            unregister_domain_post(*old(self), *final(self), domain_id@, r),

    {
        let i = match self.find_domain(domain_id) {
            Some(i) => i,
            None => return Err(compose("Domain '", domain_id, "' not found")),
        };
        let ghost old_nav = *self;
        let was_active = match &self.active_domain_id {
            Some(a) => same_chars(a.as_str(), domain_id),
            None => false,
        };
        let in_domain = match &self.cursor_position {
            Some(c) => same_chars(c.domain_id.as_str(), domain_id),
            None => false,
        };
        if in_domain {
            self.cursor_position = None;
        }
        let mut change: Option<CursorPosition> = None;
        if was_active {
            self.saved_active_domain = Some(owned(domain_id));
            self.active_domain_id = None;
            self.cursor_position = None;
            if !same_chars(domain_id, FALLBACK_DOMAIN_ID) {
                if let Some(f) = self.find_domain(FALLBACK_DOMAIN_ID) {
                    if self.domains[f].buttons.len() > 0 {
                        let first = self.domains[f].buttons[0].id.clone();
                        self.active_domain_id = Some(owned(FALLBACK_DOMAIN_ID));
                        let c = CursorPosition {
                            domain_id: owned(FALLBACK_DOMAIN_ID),
                            element_id: first,
                            element_type: ElementType::Button,
                        };
                        change = Some(c.duplicate());
                        self.cursor_position = Some(c);
                        proof {
                            lemma_button_pos(self.domains@[f as int], 0);
                        }
                    }
                }
            }
        }
        self.domains.remove(i);
        proof {
            let s = old_nav.domains@;
            lemma_remove(s, i as int, domain_id@);
            assert forall|k: int| 0 <= k < self.domains@.len() implies (#[trigger] self.domains@[k]).wf() by {
                let k2 = if k < i { k } else { k + 1 };
                assert(self.domains@[k] == s[k2]);
            }
            if self.cursor_position is Some {
                lemma_remove(s, i as int, self.cursor_position->0.domain_id@);
            }
            if self.active_domain_id is Some {
                lemma_remove(s, i as int, self.active_domain_id->0@);
            }
        }
        Ok(change)
    }

    /// Makes a domain active and puts the cursor on its first element, if it has one.
    pub fn set_active_domain(&mut self, domain_id: String) -> (r: Result<(), String>)
        requires
            old(self).wf(),
        ensures
            final(self).wf(),
            !old(self).has_domain(domain_id@) ==> (r matches Err(m) && m@ == message("Domain '", domain_id@, "' not found")
                && *final(self) == *old(self)),
            old(self).has_domain(domain_id@) ==> {
                let d = old(self).domain_of(domain_id@);
                &&& r is Ok
                &&& final(self).domains == old(self).domains
                &&& final(self).saved_active_domain == old(self).saved_active_domain
                &&& names(final(self).active_domain_id, domain_id@)
                &&& d.buttons@.len() > 0 ==> cursor_at(final(self).cursor_position, domain_id@, d.buttons@[0].id@)
                &&& d.buttons@.len() == 0 ==> final(self).cursor_position == old(self).cursor_position
            },
    {
        let i = match self.find_domain(domain_id.as_str()) {
            Some(i) => i,
            None => return Err(compose("Domain '", domain_id.as_str(), "' not found")),
        };
        let first = self.domains[i].get_element_at_index(0);
        if let Some((element_type, element_id)) = first {
            proof {
                lemma_button_pos(self.domains@[i as int], 0);
            }
            self.cursor_position = Some(CursorPosition { domain_id: domain_id.clone(), element_id, element_type });
        }
        self.active_domain_id = Some(domain_id);
        Ok(())
    }

    /// The cursor.
    pub fn get_cursor_position(&self) -> (r: Option<CursorPosition>)
        ensures
            r == self.cursor_position,
    {
        match &self.cursor_position {
            Some(c) => Some(c.duplicate()),
            None => None,
        }
    }

    /// The id of the active domain.
    pub fn get_active_domain_id(&self) -> (r: Option<String>)
        ensures
            r == self.active_domain_id,
    {
        match &self.active_domain_id {
            Some(a) => Some(a.clone()),
            None => None,
        }
    }

    /// Puts the cursor on an element directly and makes its domain active.
    pub fn set_cursor_position(&mut self, domain_id: &str, element_id: &str) -> (r: Result<ElementType, String>)
        requires
            old(self).wf(),
        ensures
            final(self).wf(),
            !old(self).has_domain(domain_id@) ==> (r matches Err(m) && m@ == message("Domain '", domain_id@, "' not found")
                && *final(self) == *old(self)),
            old(self).has_domain(domain_id@) && !old(self).domain_of(domain_id@).has_button(element_id@) ==> (r matches Err(m)
                && m@ == "Element '"@ + element_id@ + "' not found in domain '"@ + domain_id@ + "'"@ && *final(self)
                == *old(self)),
            old(self).has_domain(domain_id@) && old(self).domain_of(domain_id@).has_button(element_id@) ==> {
                &&& r == Ok::<ElementType, String>(ElementType::Button)
                &&& final(self).domains == old(self).domains
                &&& final(self).saved_active_domain == old(self).saved_active_domain
                &&& names(final(self).active_domain_id, domain_id@)
                &&& cursor_at(final(self).cursor_position, domain_id@, element_id@)
            },
    {
        let i = match self.find_domain(domain_id) {
            Some(i) => i,
            None => return Err(compose("Domain '", domain_id, "' not found")),
        };
        if self.domains[i].find_element_index(element_id).is_none() {
            return Err(compose2("Element '", element_id, "' not found in domain '", domain_id, "'"));
        }
        self.active_domain_id = Some(owned(domain_id));
        self.cursor_position = Some(
            CursorPosition {
                domain_id: owned(domain_id),
                element_id: owned(element_id),
                element_type: ElementType::Button,
            },
        );
        Ok(ElementType::Button)
    }

    /// The ids of all registered domains, in order of registration.
    pub fn get_all_domain_ids(&self) -> (r: Vec<String>)
        ensures
            r@.len() == self.domains@.len(),
            forall|i: int| 0 <= i < r@.len() ==> #[trigger] r@[i] == self.domains@[i].id,
    {
        let mut out: Vec<String> = Vec::new();
        let mut i: usize = 0;
        while i < self.domains.len()
            invariant
                i <= self.domains@.len(),
                out@.len() == i,
                forall|k: int| 0 <= k < i ==> #[trigger] out@[k] == self.domains@[k].id,
            decreases self.domains@.len() - i,
        {
            out.push(self.domains[i].id.clone());
            i = i + 1;
        }
        out
    }

    /// A copy of a domain, for inspection.
    pub fn get_domain_info(&self, domain_id: &str) -> (r: Option<Domain>)
        requires
            ids_distinct(self.domains@),
        ensures
            !self.has_domain(domain_id@) ==> r is None,
            self.has_domain(domain_id@) ==> (r matches Some(d) && d.same_as(self.domain_of(domain_id@))),
    {
        match self.find_domain(domain_id) {
            Some(i) => Some(self.domains[i].duplicate()),
            None => None,
        }
    }

    /// A domain replaced by one with the same id keeps the navigator well formed, as long as the
    /// cursor still stands on a registered element.
    proof fn lemma_replace(old_nav: &DomainNavigator, new_nav: &DomainNavigator, i: int, d: Domain)
        requires
            old_nav.wf(),
            0 <= i < old_nav.domains@.len(),
            d.id@ == old_nav.domains@[i].id@,
            d.wf(),
            new_nav.domains@ == old_nav.domains@.update(i, d),
            new_nav.active_domain_id == old_nav.active_domain_id,
            new_nav.cursor_position matches Some(c) ==> c.element_type == ElementType::Button && if c.domain_id@
                == d.id@ {
                d.has_button(c.element_id@)
            } else {
                old_nav.has_domain(c.domain_id@) && old_nav.domain_of(c.domain_id@).has_button(c.element_id@)
            },
        ensures
            new_nav.wf(),
    {
        let s = old_nav.domains@;
        lemma_update(s, i, d, s[i].id@);
        assert forall|k: int| 0 <= k < new_nav.domains@.len() implies (#[trigger] new_nav.domains@[k]).wf() by {
            if k != i {
                assert(new_nav.domains@[k] == s[k]);
            }
        }
        if new_nav.cursor_position is Some {
            lemma_update(s, i, d, new_nav.cursor_position->0.domain_id@);
        }
        if new_nav.active_domain_id is Some {
            lemma_update(s, i, d, new_nav.active_domain_id->0@);
        }
    }

    /// Makes a registered, non-empty domain active with the cursor on its first element.
    pub fn switch_to_domain(&mut self, target_domain_id: &str) -> (r: NavigationResult)
        requires
            old(self).wf(),
        ensures
            final(self).wf(),
            !old(self).has_domain(target_domain_id@) ==> (r matches NavigationResult::Error { message: msg } && msg@
                == message("Target domain '", target_domain_id@, "' not found") && *final(self) == *old(self)),
            old(self).has_domain(target_domain_id@) && old(self).domain_of(target_domain_id@).buttons@.len() == 0 ==> (
            r matches NavigationResult::Error { message: msg } && msg@ == message(
                "No elements in domain '",
                target_domain_id@,
                "'",
            ) && *final(self) == *old(self)),
            old(self).has_domain(target_domain_id@) && old(self).domain_of(target_domain_id@).buttons@.len() > 0 ==> {
                let first = old(self).domain_of(target_domain_id@).buttons@[0].id@;
                &&& r matches NavigationResult::DomainSwitched { from_domain, to_domain, new_element_id } && from_domain@
                    == id_or_empty(old(self).active_domain_id) && to_domain@ == target_domain_id@ && new_element_id@
                    == first
                &&& final(self).domains == old(self).domains
                &&& final(self).saved_active_domain == old(self).saved_active_domain
                &&& names(final(self).active_domain_id, target_domain_id@)
                &&& cursor_at(final(self).cursor_position, target_domain_id@, first)
            },
    {
        let i = match self.find_domain(target_domain_id) {
            Some(i) => i,
            None => {
                return NavigationResult::Error {
                    message: compose("Target domain '", target_domain_id, "' not found"),
                };
            },
        };
        let from_domain = match &self.active_domain_id {
            Some(a) => a.clone(),
            None => String::new(),
        };
        let (element_type, element_id) = match self.domains[i].get_element_at_index(0) {
            Some(e) => e,
            None => {
                return NavigationResult::Error { message: compose("No elements in domain '", target_domain_id, "'") };
            },
        };
        proof {
            lemma_button_pos(self.domains@[i as int], 0);
        }
        self.active_domain_id = Some(owned(target_domain_id));
        self.cursor_position = Some(
            CursorPosition { domain_id: owned(target_domain_id), element_id: element_id.clone(), element_type },
        );
        NavigationResult::DomainSwitched {
            from_domain,
            to_domain: owned(target_domain_id),
            new_element_id: element_id,
        }
    }

    /// Adds an element to a domain, keeping the elements sorted by order. When the domain is
    /// active, a cursor saved for it is restored once its own element comes back, and no other
    /// element takes the focus meanwhile; with nothing saved and no cursor anywhere, the
    /// domain's first element takes the cursor.
    #[verifier::rlimit(40)]
    pub fn register_button(&mut self, domain_id: String, button_id: String, bounds: Option<Rect>, order: usize) -> (r:
        Result<(), String>)
        requires
            old(self).wf(),
        ensures
            final(self).wf(),
            register_button_post(*old(self), *final(self), domain_id@, button_id@, bounds, order, r),

    {
        let i = match self.find_domain(domain_id.as_str()) {
            Some(i) => i,
            None => return Err(compose("Domain '", domain_id.as_str(), "' not found")),
        };
        if self.domains[i].find_element_index(button_id.as_str()).is_some() {
            return Err(compose2("Button '", button_id.as_str(), "' already exists in domain '", domain_id.as_str(), "'"));
        }
        let ghost old_nav = *self;
        let ghost d = self.domains@[i as int];
        let active = match &self.active_domain_id {
            Some(a) => same_chars(a.as_str(), domain_id.as_str()),
            None => false,
        };
        let mut dom = self.domains.remove(i);
        let mut k: usize = 0;
        while k < dom.buttons.len()
            invariant
                dom == d,
                k <= d.buttons@.len(),
                forall|j: int| 0 <= j < k ==> #[trigger] d.buttons@[j].order <= order,
            ensures
                k <= d.buttons@.len(),
                forall|j: int| 0 <= j < k ==> #[trigger] d.buttons@[j].order <= order,
                k < d.buttons@.len() ==> d.buttons@[k as int].order > order,
            decreases d.buttons@.len() - k,
        {
            if dom.buttons[k].order > order {
                break;
            }
            k = k + 1;
        }
        proof {
            assert(d.wf()) by {
                assert(old_nav.domains@[i as int].wf());
            }
        }
        let button = ButtonElement { id: button_id.clone(), bounds, enabled: true, order };
        let ghost b = button;
        let restore = active && match &dom.pending_element {
            Some(p) => same_chars(p.as_str(), button_id.as_str()),
            None => false,
        };
        let first = active && dom.pending_element.is_none() && self.cursor_position.is_none()
            && dom.buttons.len() == 0;
        dom.buttons.insert(k, button);
        if restore || first {
            dom.pending_element = None;
            self.cursor_position = Some(
                CursorPosition { domain_id: domain_id.clone(), element_id: button_id, element_type: ElementType::Button },
            );
        }
        let ghost d2 = dom;
        self.domains.insert(i, dom);
        proof {
            let bs = d.buttons@;
            let bs2 = d2.buttons@;
            assert(bs2 == bs.insert(k as int, b));
            assert forall|j: int| k <= j < bs.len() implies #[trigger] bs[j].order > order by {
                if j > k {
                    assert(bs[k as int].order <= bs[j].order);
                }
            }
            assert(sorted_insert(bs, b, bs2));
            assert(d2.sorted()) by {
                assert forall|x: int, y: int| 0 <= x < y < bs2.len() implies #[trigger] bs2[x].order
                    <= #[trigger] bs2[y].order by {
                    let x2 = if x < k { x } else { x - 1 };
                    let y2 = if y < k { y } else { y - 1 };
                    if x != k as int && y != k as int {
                        assert(bs2[x] == bs[x2] && bs2[y] == bs[y2]);
                    } else if x == k as int {
                        assert(bs2[y] == bs[y2]);
                    } else {
                        assert(bs2[x] == bs[x2]);
                    }
                }
            }
            assert(d2.ids_distinct()) by {
                assert forall|x: int, y: int| 0 <= x < bs2.len() && 0 <= y < bs2.len() && x != y implies #[trigger] bs2[x].id@
                    != #[trigger] bs2[y].id@ by {
                    let x2 = if x < k { x } else { x - 1 };
                    let y2 = if y < k { y } else { y - 1 };
                    if x != k as int && y != k as int {
                        assert(bs2[x] == bs[x2] && bs2[y] == bs[y2]);
                    } else if x == k as int {
                        assert(bs2[y] == bs[y2]);
                    } else {
                        assert(bs2[x] == bs[x2]);
                    }
                }
            }
            assert(bs2[k as int].id@ == button_id@);
            assert(d2.has_button(button_id@));
            assert(self.domains@ =~= old_nav.domains@.update(i as int, d2));
            if self.cursor_position is Some {
                let c = self.cursor_position->0;
                if c.domain_id@ == d.id@ && !(restore || first) {
                    let m = d.button_pos(c.element_id@);
                    let m2 = if m < k { m } else { m + 1 };
                    assert(bs2[m2] == bs[m]);
                    assert(d2.has_button(c.element_id@));
                }
            }
            Self::lemma_replace(&old_nav, self, i as int, d2);
        }
        Ok(())
    }

    /// Removes an element. If the cursor stood on it, the cursor is cleared and saved for the
    /// domain until that element comes back; the focus does not move to a neighbour.
    pub fn unregister_button(&mut self, domain_id: &str, button_id: &str) -> (r: Result<(), String>)
        requires
            old(self).wf(),
        ensures
            final(self).wf(),
            unregister_button_post(*old(self), *final(self), domain_id@, button_id@, r),

    {
        let i = match self.find_domain(domain_id) {
            Some(i) => i,
            None => return Err(compose("Domain '", domain_id, "' not found")),
        };
        let k = match self.domains[i].find_element_index(button_id) {
            Some(k) => k,
            None => return Err(compose2("Button '", button_id, "' not found in domain '", domain_id, "'")),
        };
        let ghost old_nav = *self;
        let ghost d = self.domains@[i as int];
        proof {
            assert(d.wf()) by {
                assert(old_nav.domains@[i as int].wf());
            }
            lemma_button_pos(d, k as int);
        }
        let focused = match &self.cursor_position {
            Some(c) => same_chars(c.domain_id.as_str(), domain_id) && same_chars(c.element_id.as_str(), button_id),
            None => false,
        };
        let mut dom = self.domains.remove(i);
        if focused {
            dom.pending_element = Some(owned(button_id));
            self.cursor_position = None;
        }
        dom.buttons.remove(k);
        let ghost d2 = dom;
        self.domains.insert(i, dom);
        proof {
            let bs = d.buttons@;
            let bs2 = d2.buttons@;
            assert(d2.wf()) by {
                assert forall|x: int, y: int| 0 <= x < y < bs2.len() implies #[trigger] bs2[x].order
                    <= #[trigger] bs2[y].order by {
                    let x2 = if x < k { x } else { x + 1 };
                    let y2 = if y < k { y } else { y + 1 };
                    assert(bs2[x] == bs[x2] && bs2[y] == bs[y2]);
                }
                assert forall|x: int, y: int| 0 <= x < bs2.len() && 0 <= y < bs2.len() && x != y implies #[trigger] bs2[x].id@
                    != #[trigger] bs2[y].id@ by {
                    let x2 = if x < k { x } else { x + 1 };
                    let y2 = if y < k { y } else { y + 1 };
                    assert(bs2[x] == bs[x2] && bs2[y] == bs[y2]);
                }
            }
            assert(self.domains@ =~= old_nav.domains@.update(i as int, d2));
            if self.cursor_position is Some {
                let c = self.cursor_position->0;
                if c.domain_id@ == d.id@ {
                    let m = d.button_pos(c.element_id@);
                    assert(m != k);
                    let m2 = if m < k { m } else { m - 1 };
                    assert(bs2[m2] == bs[m]);
                    assert(d2.has_button(c.element_id@));
                }
            }
            Self::lemma_replace(&old_nav, self, i as int, d2);
        }
        Ok(())
    }

    /// Updates the bounds of an element; the cursor and the restoration record stay as they are.
    pub fn update_button_bounds(&mut self, domain_id: &str, button_id: &str, bounds: Option<Rect>) -> (r: Result<
        (),
        String,
    >)
        requires
            old(self).wf(),
        ensures
            final(self).wf(),
            !old(self).has_domain(domain_id@) ==> (r matches Err(m) && m@ == message("Domain '", domain_id@, "' not found")
                && *final(self) == *old(self)),
            old(self).has_domain(domain_id@) && !old(self).domain_of(domain_id@).has_button(button_id@) ==> (r matches Err(m)
                && m@ == "Button '"@ + button_id@ + "' not found in domain '"@ + domain_id@ + "'"@ && *final(self)
                == *old(self)),
            old(self).has_domain(domain_id@) && old(self).domain_of(domain_id@).has_button(button_id@) ==> {
                let i = seq_pos(old(self).domains@, domain_id@);
                let d = old(self).domains@[i];
                let d2 = final(self).domains@[i];
                let k = d.button_pos(button_id@);
                &&& r is Ok
                &&& final(self).domains@ == old(self).domains@.update(i, d2)
                &&& same_but_elements(d, d2)
                &&& d2.pending_element == d.pending_element
                &&& d2.buttons@ == d.buttons@.update(k, ButtonElement { bounds: bounds, ..d.buttons@[k] })
                &&& final(self).cursor_position == old(self).cursor_position
                &&& final(self).active_domain_id == old(self).active_domain_id
                &&& final(self).saved_active_domain == old(self).saved_active_domain
            },
    {
        let i = match self.find_domain(domain_id) {
            Some(i) => i,
            None => return Err(compose("Domain '", domain_id, "' not found")),
        };
        let k = match self.domains[i].find_element_index(button_id) {
            Some(k) => k,
            None => return Err(compose2("Button '", button_id, "' not found in domain '", domain_id, "'")),
        };
        let ghost old_nav = *self;
        let ghost d = self.domains@[i as int];
        proof {
            assert(d.wf()) by {
                assert(old_nav.domains@[i as int].wf());
            }
            lemma_button_pos(d, k as int);
        }
        let mut dom = self.domains.remove(i);
        let mut b = dom.buttons.remove(k);
        b.bounds = bounds;
        dom.buttons.insert(k, b);
        let ghost d2 = dom;
        self.domains.insert(i, dom);
        proof {
            let bs = d.buttons@;
            let bs2 = d2.buttons@;
            assert(bs2 =~= bs.update(k as int, ButtonElement { bounds: bounds, ..bs[k as int] }));
            assert(d2.wf()) by {
                assert forall|x: int, y: int| 0 <= x < y < bs2.len() implies #[trigger] bs2[x].order
                    <= #[trigger] bs2[y].order by {
                    assert(bs2[x].order == bs[x].order && bs2[y].order == bs[y].order);
                }
                assert forall|x: int, y: int| 0 <= x < bs2.len() && 0 <= y < bs2.len() && x != y implies #[trigger] bs2[x].id@
                    != #[trigger] bs2[y].id@ by {
                    assert(bs2[x].id == bs[x].id && bs2[y].id == bs[y].id);
                }
            }
            assert(self.domains@ =~= old_nav.domains@.update(i as int, d2));
            if self.cursor_position is Some {
                let c = self.cursor_position->0;
                if c.domain_id@ == d.id@ {
                    let m = d.button_pos(c.element_id@);
                    assert(bs2[m].id == bs[m].id);
                    assert(d2.has_button(c.element_id@));
                }
            }
            Self::lemma_replace(&old_nav, self, i as int, d2);
        }
        Ok(())
    }

    /// The index of the cursor's element in `d`, or 0 when the cursor is elsewhere or absent.
    pub open spec fn current_index_in(&self, d: Domain) -> int {
        match self.cursor_position {
            Some(c) => if c.domain_id@ == d.id@ && d.has_button(c.element_id@) {
                d.button_pos(c.element_id@)
            } else {
                0
            },
            None => 0,
        }
    }

    /// `r` is the domain next to domain `current` along `key`, found among the other domains'
    /// bounds; none when `current` has no bounds.
    pub open spec fn adjacent_ok(&self, current: Seq<char>, key: WASDKey, r: Option<String>) -> bool {
        match self.domain_of(current).bounds {
            None => r is None,
            Some(o) => nearest_ok(o, domain_candidates(self.domains@, current, self.domains@.len() as int), key, r),
        }
    }

    /// Moves inside a spatial domain from the element at `cur`.
    fn navigate_spatial(domain: &Domain, cur: usize, direction: WASDKey) -> (r: Option<usize>)
        requires
            domain.wf(),
            cur < domain.buttons@.len(),
        ensures
            spatial_ok(*domain, cur as int, direction, r),
            r matches Some(n) ==> n < domain.buttons@.len(),
    {
        let origin = match domain.buttons[cur].bounds {
            Some(b) => b,
            None => return None,
        };
        let mut candidates: Vec<(String, Rect)> = Vec::new();
        let mut i: usize = 0;
        while i < domain.buttons.len()
            invariant
                i <= domain.buttons@.len(),
                candidates@ == sibling_candidates(domain.buttons@, cur as int, i as int),
            decreases domain.buttons@.len() - i,
        {
            if i != cur {
                if let Some(b) = domain.buttons[i].bounds {
                    candidates.push((domain.buttons[i].id.clone(), b));
                }
            }
            i = i + 1;
        }
        let nearest = find_nearest_in_direction(&origin, candidates.as_slice(), direction);
        let ghost n = nearest;
        match nearest {
            None => None,
            Some(id) => {
                let r = domain.find_element_index(id.as_str());
                proof {
                    if r is Some {
                        lemma_button_pos(*domain, r->0 as int);
                    } else {
                        let c = sibling_candidates(domain.buttons@, cur as int, domain.buttons@.len() as int);
                        let j = choose|j: int|
                            #[trigger] is_first_best(origin, c, direction, j) && c[j].0 == id;
                        lemma_sibling_from(domain.buttons@, cur as int, domain.buttons@.len() as int, j);
                    }
                }
                assert(nearest_ok(origin, candidates@, direction, n));
                r
            },
        }
    }

    /// The domain next to domain `i` along `direction`.
    fn find_adjacent_domain(&self, i: usize, direction: WASDKey) -> (r: Option<String>)
        requires
            self.wf(),
            i < self.domains@.len(),
        ensures
            self.adjacent_ok(self.domains@[i as int].id@, direction, r),
    {
        proof {
            lemma_pos(self.domains@, i as int);
        }
        let origin = match self.domains[i].bounds {
            Some(b) => b,
            None => return None,
        };
        let current = self.domains[i].id.as_str();
        let mut candidates: Vec<(String, Rect)> = Vec::new();
        let mut k: usize = 0;
        while k < self.domains.len()
            invariant
                k <= self.domains@.len(),
                current@ == self.domains@[i as int].id@,
                candidates@ == domain_candidates(self.domains@, current@, k as int),
            decreases self.domains@.len() - k,
        {
            if !same_chars(self.domains[k].id.as_str(), current) && self.domains[k].buttons.len() > 0 {
                if let Some(b) = self.domains[k].bounds {
                    candidates.push((self.domains[k].id.clone(), b));
                }
            }
            k = k + 1;
        }
        find_nearest_in_direction(&origin, candidates.as_slice(), direction)
    }

    /// Moves the cursor one step along `key` inside the active domain, following its layout. At
    /// the domain's edge, reports the adjacent domain to cross into, unless that edge is locked
    /// or no domain lies that way.
    pub fn handle_wasd_input(&mut self, key: WASDKey) -> (r: NavigationResult)
        requires
            old(self).wf(),
        ensures
            final(self).wf(),
            old(self).active_domain_id is None ==> r is NoActiveDomain && *final(self) == *old(self),
            old(self).active_domain_id is Some && old(self).domain_of(old(self).active_domain_id->0@).buttons@.len() == 0
                ==> r is BoundaryReached && *final(self) == *old(self),
            old(self).active_domain_id is Some && old(self).domain_of(old(self).active_domain_id->0@).buttons@.len() > 0
                ==> {
                let a = old(self).active_domain_id->0;
                let i = seq_pos(old(self).domains@, a@);
                let d = old(self).domain_of(a@);
                let cur = old(self).current_index_in(d);
                exists|next: Option<usize>|
                    #[trigger] step_ok(d, cur, key, next) && if next is Some && next->0 < d.buttons@.len() {
                        let n = next->0;
                        &&& r matches NavigationResult::CursorMoved { domain_id, element_id, element_type } && domain_id@
                            == a@ && element_id@ == d.buttons@[n as int].id@ && element_type == ElementType::Button
                        &&& final(self).domains@ == old(self).domains@.update(i, Domain { current_index: n, ..d })
                        &&& cursor_at(final(self).cursor_position, a@, d.buttons@[n as int].id@)
                        &&& final(self).active_domain_id == old(self).active_domain_id
                        &&& final(self).saved_active_domain == old(self).saved_active_domain
                    } else {
                        &&& *final(self) == *old(self)
                        &&& d.boundary_lock@.contains(key.spec_edge()) ==> r is BoundaryReached
                        &&& !d.boundary_lock@.contains(key.spec_edge()) ==> exists|t: Option<String>|
                            #[trigger] old(self).adjacent_ok(a@, key, t) && match t {
                                Some(to) => r matches NavigationResult::DomainBoundaryCrossed {
                                    from_domain,
                                    to_domain,
                                    direction,
                                } && from_domain@ == a@ && to_domain@ == to@ && direction@ == edge_name(key.spec_edge()),
                                None => r is BoundaryReached,
                            }
                    }
            },
    {
        let active = match &self.active_domain_id {
            Some(a) => a.clone(),
            None => return NavigationResult::NoActiveDomain,
        };
        let i = match self.find_domain(active.as_str()) {
            Some(i) => i,
            None => {
                return NavigationResult::Error {
                    message: compose("Active domain '", active.as_str(), "' not found"),
                };
            },
        };
        let ghost d = self.domains@[i as int];
        proof {
            assert(d.wf()) by {
                assert(self.domains@[i as int].wf());
            }
        }
        let count = self.domains[i].element_count();
        if count == 0 {
            return NavigationResult::BoundaryReached;
        }
        let cur: usize = match &self.cursor_position {
            Some(c) => if same_chars(c.domain_id.as_str(), active.as_str()) {
                match self.domains[i].find_element_index(c.element_id.as_str()) {
                    Some(k) => {
                        proof {
                            lemma_button_pos(d, k as int);
                        }
                        k
                    },
                    None => 0,
                }
            } else {
                0
            },
            None => 0,
        };
        assert(cur as int == self.current_index_in(d));
        let next = match self.domains[i].layout_mode {
            LayoutMode::Grid { columns } => if columns == 0 {
                None
            } else {
                navigate_grid(cur, count, columns, key)
            },
            LayoutMode::List { direction } => navigate_list(cur, count, direction == ListDirection::Vertical, key),
            LayoutMode::Spatial => Self::navigate_spatial(&self.domains[i], cur, key),
        };
        assert(step_ok(d, cur as int, key, next));
        if let Some(n) = next {
            if n < count {
                let ghost old_nav = *self;
                let element_id = self.domains[i].buttons[n].id.clone();
                let mut dom = self.domains.remove(i);
                dom.current_index = n;
                let ghost d2 = dom;
                self.domains.insert(i, dom);
                self.cursor_position = Some(
                    CursorPosition {
                        domain_id: active.clone(),
                        element_id: element_id.clone(),
                        element_type: ElementType::Button,
                    },
                );
                proof {
                    assert(self.domains@ =~= old_nav.domains@.update(i as int, d2));
                    lemma_button_pos(d, n as int);
                    Self::lemma_replace(&old_nav, self, i as int, d2);
                }
                return NavigationResult::CursorMoved {
                    domain_id: active,
                    element_id,
                    element_type: ElementType::Button,
                };
            }
        }
        let edge = key.edge();
        if !self.domains[i].can_exit_direction(&edge) {
            return NavigationResult::BoundaryReached;
        }
        let target = self.find_adjacent_domain(i, key);
        assert(self.adjacent_ok(active@, key, target));
        match target {
            Some(to_domain) => NavigationResult::DomainBoundaryCrossed {
                from_domain: active,
                to_domain,
                direction: edge.name(),
            },
            None => NavigationResult::BoundaryReached,
        }
    }
}

impl Default for DomainNavigator {
    fn default() -> (r: DomainNavigator)
        ensures
            r.wf(),
            r.domains@.len() == 0,
            r.active_domain_id is None,
            r.cursor_position is None,
            r.saved_active_domain is None,
    {
        DomainNavigator::new()
    }
}

} // verus!
