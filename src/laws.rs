use vstd::prelude::*;
use crate::navigator::{
    cursor_at, cursor_in, lemma_update, names, register_button_post, register_domain_post, seq_pos,
    unregister_button_post, unregister_domain_post, DomainNavigator, FALLBACK_DOMAIN_ID,
};
use crate::spatial::{forward, nearest_ok};
use crate::types::{CursorPosition, LayoutMode, Rect, WASDKey};

verus! {

/// Registering a domain id that is already registered fails and changes nothing.
pub proof fn law_duplicate_domain_refused(
    s: DomainNavigator,
    t: DomainNavigator,
    id: Seq<char>,
    parent_id: Option<String>,
    layout_mode: LayoutMode,
    r: Result<(), String>,
)
    requires
        s.has_domain(id),
        register_domain_post(s, t, id, parent_id, layout_mode, r),
    ensures
        r is Err,
        t == s,
{
}

/// A registration adds one domain when it succeeds and none when it fails.
pub proof fn law_register_counts(
    s: DomainNavigator,
    t: DomainNavigator,
    id: Seq<char>,
    parent_id: Option<String>,
    layout_mode: LayoutMode,
    r: Result<(), String>,
)
    requires
        register_domain_post(s, t, id, parent_id, layout_mode, r),
    ensures
        t.domains@.len() == s.domains@.len() + if r is Ok { 1int } else { 0int },
{
}

/// An unregistration removes one domain when it succeeds and none when it fails.
pub proof fn law_unregister_counts(
    s: DomainNavigator,
    t: DomainNavigator,
    id: Seq<char>,
    r: Result<Option<CursorPosition>, String>,
)
    requires
        unregister_domain_post(s, t, id, r),
    ensures
        t.domains@.len() == s.domains@.len() - if r is Ok { 1int } else { 0int },
{
}

/// One step of a run over the registry: a registration with result `rr`, or an unregistration
/// with result `ur`.
pub open spec fn registry_step(
    s: DomainNavigator,
    t: DomainNavigator,
    id: Seq<char>,
    parent_id: Option<String>,
    layout_mode: LayoutMode,
    is_register: bool,
    rr: Result<(), String>,
    ur: Result<Option<CursorPosition>, String>,
) -> bool {
    if is_register {
        register_domain_post(s, t, id, parent_id, layout_mode, rr)
    } else {
        unregister_domain_post(s, t, id, ur)
    }
}

/// Successful registrations minus successful unregistrations among the first `n` steps.
pub open spec fn net_registrations(
    is_register: Seq<bool>,
    rr: Seq<Result<(), String>>,
    ur: Seq<Result<Option<CursorPosition>, String>>,
    n: int,
) -> int
    decreases n,
{
    if n <= 0 {
        0
    } else {
        let k = n - 1;
        net_registrations(is_register, rr, ur, k) + if is_register[k] {
            if rr[k] is Ok { 1int } else { 0int }
        } else {
            if ur[k] is Ok { -1int } else { 0int }
        }
    }
}

/// Over any run of registrations and unregistrations, the number of domains changes by the
/// number of successful registrations minus the number of successful unregistrations.
pub proof fn law_domain_count_over_run(
    states: Seq<DomainNavigator>,
    ids: Seq<Seq<char>>,
    parents: Seq<Option<String>>,
    layouts: Seq<LayoutMode>,
    is_register: Seq<bool>,
    rr: Seq<Result<(), String>>,
    ur: Seq<Result<Option<CursorPosition>, String>>,
    n: int,
)
    requires
        0 <= n,
        states.len() == n + 1,
        ids.len() == n,
        parents.len() == n,
        layouts.len() == n,
        is_register.len() == n,
        rr.len() == n,
        ur.len() == n,
        forall|i: int|
            0 <= i < n ==> #[trigger] registry_step(
                states[i],
                states[i + 1],
                ids[i],
                parents[i],
                layouts[i],
                is_register[i],
                rr[i],
                ur[i],
            ),
    ensures
        states[n].domains@.len() == states[0].domains@.len() + net_registrations(is_register, rr, ur, n),
    decreases n,
{
    if n > 0 {
        let k = n - 1;
        law_domain_count_over_run(
            states.subrange(0, n),
            ids.subrange(0, k),
            parents.subrange(0, k),
            layouts.subrange(0, k),
            is_register.subrange(0, k),
            rr.subrange(0, k),
            ur.subrange(0, k),
            k,
        );
        assert(registry_step(states[k], states[k + 1], ids[k], parents[k], layouts[k], is_register[k], rr[k], ur[k]));
        assert(net_registrations(is_register.subrange(0, k), rr.subrange(0, k), ur.subrange(0, k), k)
            == net_registrations(is_register, rr, ur, k)) by {
            lemma_net_prefix(is_register, rr, ur, k, k);
        }
    }
}

proof fn lemma_net_prefix(
    is_register: Seq<bool>,
    rr: Seq<Result<(), String>>,
    ur: Seq<Result<Option<CursorPosition>, String>>,
    k: int,
    j: int,
)
    requires
        0 <= j <= k,
        k <= is_register.len(),
        k <= rr.len(),
        k <= ur.len(),
    ensures
        net_registrations(is_register.subrange(0, k), rr.subrange(0, k), ur.subrange(0, k), j)
            == net_registrations(is_register, rr, ur, j),
    decreases j,
{
    if j > 0 {
        lemma_net_prefix(is_register, rr, ur, k, j - 1);
    }
}

/// Unregistering the element under the cursor clears the cursor and saves it for the domain.
pub proof fn law_focused_element_saved(
    s: DomainNavigator,
    t: DomainNavigator,
    d: Seq<char>,
    e: Seq<char>,
    r: Result<(), String>,
)
    requires
        s.wf(),
        cursor_at(s.cursor_position, d, e),
        unregister_button_post(s, t, d, e, r),
    ensures
        r is Ok,
        t.cursor_position is None,
        t.saved_cursor(d) == Some(e),
{
    let i = seq_pos(s.domains@, d);
    lemma_update(s.domains@, i, t.domains@[i], d);
}

/// While a cursor is saved for the active domain and no cursor is set, registering any other
/// element there leaves the cursor unset and the saved cursor in place.
pub proof fn law_other_element_waits(
    s: DomainNavigator,
    t: DomainNavigator,
    d: Seq<char>,
    f: Seq<char>,
    bounds: Option<Rect>,
    order: usize,
    r: Result<(), String>,
)
    requires
        s.wf(),
        names(s.active_domain_id, d),
        s.cursor_position is None,
        s.saved_cursor(d) is Some,
        s.saved_cursor(d) != Some(f),
        register_button_post(s, t, d, f, bounds, order, r),
    ensures
        t.cursor_position is None,
        t.saved_cursor(d) == s.saved_cursor(d),
{
    if r is Ok {
        let i = seq_pos(s.domains@, d);
        lemma_update(s.domains@, i, t.domains@[i], d);
    }
}

/// When the element whose cursor was saved for the active domain registers again, the cursor
/// returns to exactly that element and the saved cursor is consumed.
pub proof fn law_saved_element_restored(
    s: DomainNavigator,
    t: DomainNavigator,
    d: Seq<char>,
    e: Seq<char>,
    bounds: Option<Rect>,
    order: usize,
    r: Result<(), String>,
)
    requires
        s.wf(),
        names(s.active_domain_id, d),
        s.saved_cursor(d) == Some(e),
        register_button_post(s, t, d, e, bounds, order, r),
        r is Ok,
    ensures
        cursor_at(t.cursor_position, d, e),
        t.saved_cursor(d) is None,
{
    let i = seq_pos(s.domains@, d);
    lemma_update(s.domains@, i, t.domains@[i], d);
}

/// Unregistering the active domain that holds the cursor hands the focus to the lowest-order
/// element of the fallback domain, when that domain is registered, is another one and is not
/// empty; the new cursor is returned.
pub proof fn law_fallback_recovery(
    s: DomainNavigator,
    t: DomainNavigator,
    id: Seq<char>,
    r: Result<Option<CursorPosition>, String>,
)
    requires
        s.wf(),
        names(s.active_domain_id, id),
        cursor_in(s.cursor_position, id),
        FALLBACK_DOMAIN_ID@ != id,
        s.has_domain(FALLBACK_DOMAIN_ID@),
        s.domain_of(FALLBACK_DOMAIN_ID@).buttons@.len() > 0,
        unregister_domain_post(s, t, id, r),
    ensures
        names(t.active_domain_id, FALLBACK_DOMAIN_ID@),
        cursor_at(t.cursor_position, FALLBACK_DOMAIN_ID@, s.domain_of(FALLBACK_DOMAIN_ID@).buttons@[0].id@),
        r == Ok::<Option<CursorPosition>, String>(t.cursor_position),
        forall|k: int|
            0 <= k < s.domain_of(FALLBACK_DOMAIN_ID@).buttons@.len() ==> s.domain_of(FALLBACK_DOMAIN_ID@).buttons@[0].order
                <= #[trigger] s.domain_of(FALLBACK_DOMAIN_ID@).buttons@[k].order,
{
    let fb = s.domain_of(FALLBACK_DOMAIN_ID@);
    assert(fb.wf());
    assert forall|k: int| 0 <= k < fb.buttons@.len() implies fb.buttons@[0].order <= #[trigger] fb.buttons@[k].order by {
        if k > 0 {
            assert(fb.buttons@[0].order <= fb.buttons@[k].order);
        }
    }
}

/// A candidate whose centre does not lie strictly ahead is never chosen, unless another
/// candidate with the same id does lie ahead.
pub proof fn law_behind_never_chosen(o: Rect, c: Seq<(String, Rect)>, key: WASDKey, r: Option<String>, j: int)
    requires
        nearest_ok(o, c, key, r),
        0 <= j < c.len(),
        !forward(o, c[j].1, key),
        forall|k: int| 0 <= k < c.len() && k != j ==> #[trigger] c[k].0 != c[j].0,
    ensures
        r != Some(c[j].0),
{
}

/// Reading the cursor twice with no change in between gives the same value.
pub proof fn law_cursor_read_stable(nav: DomainNavigator, r1: Option<CursorPosition>, r2: Option<CursorPosition>)
    requires
        r1 == nav.cursor_position,
        r2 == nav.cursor_position,
    ensures
        r1 == r2,
{
}

} // verus!
