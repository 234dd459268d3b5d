//! Access decisions: whether a request is allowed, and what happens to it
//! once decided.

use vstd::prelude::*;
use vstd::std_specs::cmp::PartialEqSpec;

verus! {

/// The outcome of an access check.
#[derive(Debug, Clone, Copy, PartialEq, Eq, Structural)]
pub enum Decision {
    /// The request may proceed.
    Allow,
    /// The request is authenticated but lacks the required access.
    Unauthorized,
    /// The request is not authenticated.
    Unauthenticated,
}

/// How required permissions are matched against the user's permissions.
#[derive(Debug, Clone, Copy, PartialEq, Eq, Structural)]
pub enum PermissionMatch {
    /// Every required permission must be granted.
    All,
    /// At least one required permission must be granted.
    Any,
    /// The granted permissions must be exactly the required ones.
    Exact,
}

/// What the middleware does with a request.
#[derive(Debug, Clone, Copy, PartialEq, Eq, Structural)]
pub enum Route {
    /// Forward the request to the wrapped service.
    CallInner,
    /// Answer with the unauthorized handler.
    Unauthorized,
    /// Answer with the unauthenticated handler.
    Unauthenticated,
    /// Answer `500 Internal Server Error`: the request carries no auth session.
    InternalError,
}

/// The route of a request: a request without an auth session gets an
/// internal error and no decision is asked for; otherwise the decision picks
/// the route.
pub open spec fn spec_route(decision: Option<Decision>) -> Route {
    match decision {
        None => Route::InternalError,
        Some(Decision::Allow) => Route::CallInner,
        Some(Decision::Unauthorized) => Route::Unauthorized,
        Some(Decision::Unauthenticated) => Route::Unauthenticated,
    }
}

/// Routes a request. `decision` is `None` when the request carries no auth
/// session, and otherwise the decision taken for it.
pub fn route_request(decision: Option<Decision>) -> (r: Route)
    ensures
        r == spec_route(decision),
{
    match decision {
        None => Route::InternalError,
        Some(Decision::Allow) => Route::CallInner,
        Some(Decision::Unauthorized) => Route::Unauthorized,
        Some(Decision::Unauthenticated) => Route::Unauthenticated,
    }
}

/// The decision of the default access check: a logged-in user is allowed,
/// anybody else is unauthenticated.
pub fn default_access(logged_in: bool) -> (r: Decision)
    ensures
        r == (if logged_in {
            Decision::Allow
        } else {
            Decision::Unauthenticated
        }),
{
    if logged_in {
        Decision::Allow
    } else {
        Decision::Unauthenticated
    }
}

/// Whether granted permissions satisfy the required ones under `mode`.
/// Permissions are identified by integers.
pub open spec fn permissions_match(
    required: Set<u64>,
    granted: Set<u64>,
    mode: PermissionMatch,
) -> bool {
    match mode {
        PermissionMatch::All => required.subset_of(granted),
        PermissionMatch::Any => exists|p: u64| required.contains(p) && granted.contains(p),
        PermissionMatch::Exact => required == granted,
    }
}

/// The decision of a permission check: an anonymous request is
/// unauthenticated; a user whose permissions could not be read, or whose
/// permissions do not match, is unauthorized; otherwise the request is
/// allowed.
pub open spec fn spec_permission_decision(
    logged_in: bool,
    granted: Option<Seq<u64>>,
    required: Seq<u64>,
    mode: PermissionMatch,
) -> Decision {
    if !logged_in {
        Decision::Unauthenticated
    } else {
        match granted {
            None => Decision::Unauthorized,
            Some(g) => if permissions_match(required.to_set(), g.to_set(), mode) {
                Decision::Allow
            } else {
                Decision::Unauthorized
            },
        }
    }
}

/// Whether `v` holds `x`.
fn contains(v: &Vec<u64>, x: u64) -> (r: bool)
    ensures
        r == v@.contains(x),
{
    let n = v.len();
    for i in 0..n
        invariant
            n == v@.len(),
            forall|j: int| 0 <= j < i ==> v@[j] != x,
    {
        if v[i] == x {
            return true;
        }
    }
    false
}

/// Whether every element of `a` is in `b`.
fn all_in(a: &Vec<u64>, b: &Vec<u64>) -> (r: bool)
    ensures
        r == a@.to_set().subset_of(b@.to_set()),
{
    let n = a.len();
    for i in 0..n
        invariant
            n == a@.len(),
            forall|j: int| 0 <= j < i ==> b@.contains(#[trigger] a@[j]),
    {
        if !contains(b, a[i]) {
            proof {
                assert(a@.to_set().contains(a@[i as int]));
            }
            return false;
        }
    }
    proof {
        assert forall|p: u64| a@.to_set().contains(p) implies b@.to_set().contains(p) by {
            let j = choose|j: int| 0 <= j < a@.len() && a@[j] == p;
            assert(b@.contains(a@[j]));
        }
    }
    true
}

/// Whether some element of `a` is in `b`.
fn any_in(a: &Vec<u64>, b: &Vec<u64>) -> (r: bool)
    ensures
        r == exists|p: u64| a@.to_set().contains(p) && b@.to_set().contains(p),
{
    let n = a.len();
    for i in 0..n
        invariant
            n == a@.len(),
            forall|j: int| 0 <= j < i ==> !b@.contains(#[trigger] a@[j]),
    {
        if contains(b, a[i]) {
            proof {
                assert(a@.to_set().contains(a@[i as int]));
                assert(b@.to_set().contains(a@[i as int]));
            }
            return true;
        }
    }
    proof {
        assert forall|p: u64| !(a@.to_set().contains(p) && b@.to_set().contains(p)) by {
            if a@.to_set().contains(p) {
                let j = choose|j: int| 0 <= j < a@.len() && a@[j] == p;
                assert(!b@.contains(a@[j]));
            }
        }
    }
    false
}

/// Decides a permission check (see [`spec_permission_decision`]).
/// `granted` is `None` when the user's permissions could not be read.
pub fn permission_decision(
    logged_in: bool,
    granted: Option<&Vec<u64>>,
    required: &Vec<u64>,
    mode: PermissionMatch,
) -> (r: Decision)
    ensures
        r == spec_permission_decision(
            logged_in,
            match granted {
                Some(g) => Some(g@),
                None => None,
            },
            required@,
            mode,
        ),
{
    if !logged_in {
        return Decision::Unauthenticated;
    }
    match granted {
        None => Decision::Unauthorized,
        Some(g) => {
            let ok = match mode {
                PermissionMatch::All => all_in(required, g),
                PermissionMatch::Any => any_in(required, g),
                PermissionMatch::Exact => {
                    let a = all_in(required, g);
                    let b = all_in(g, required);
                    proof {
                        if a && b {
                            assert(required@.to_set() =~= g@.to_set());
                        }
                    }
                    a && b
                },
            };
            if ok {
                Decision::Allow
            } else {
                Decision::Unauthorized
            }
        },
    }
}

/// A set of required permissions and the way they are matched.
pub struct PermissionRule {
    pub required: Vec<u64>,
    pub mode: PermissionMatch,
}

impl PermissionRule {
    /// A rule that requires nothing, matched with [`PermissionMatch::All`].
    pub fn new() -> (r: Self)
        ensures
            r.required@ == Seq::<u64>::empty(),
            r.mode == PermissionMatch::All,
    {
        PermissionRule { required: Vec::new(), mode: PermissionMatch::All }
    }

    /// Adds required permissions.
    pub fn with_permissions(self, permissions: Vec<u64>) -> (r: Self)
        ensures
            r.required@ == self.required@ + permissions@,
            r.mode == self.mode,
    {
        let mut required = self.required;
        let mut p = permissions;
        required.append(&mut p);
        PermissionRule { required, mode: self.mode }
    }

    /// Sets the matching mode.
    pub fn with_mode(self, mode: PermissionMatch) -> (r: Self)
        ensures
            r.required@ == self.required@,
            r.mode == mode,
    {
        PermissionRule { required: self.required, mode }
    }

    /// The decision for a user who is `logged_in` and was `granted` these
    /// permissions (`None`: they could not be read).
    pub fn decide(&self, logged_in: bool, granted: Option<&Vec<u64>>) -> (r: Decision)
        ensures
            r == spec_permission_decision(
                logged_in,
                match granted {
                    Some(g) => Some(g@),
                    None => None,
                },
                self.required@,
                self.mode,
            ),
    {
        permission_decision(logged_in, granted, &self.required, self.mode)
    }
}

/// `k` is the number of the item at position `i` of `items`: the position of
/// the first item equal (by `==`) to it, or `i` itself where no item up to
/// and including `i` is equal to it.
pub open spec fn is_first_equal<P: PartialEq>(items: Seq<P>, i: int, k: int) -> bool {
    &&& 0 <= k <= i
    &&& forall|j: int| 0 <= j < k ==> !(#[trigger] items[j]).eq_spec(&items[i])
    &&& (k == i || items[k].eq_spec(&items[i]))
}

/// The item at position `j` of `a` followed by `b`.
fn item_at<'a, P>(a: &'a Vec<P>, b: &'a Vec<P>, j: usize) -> (r: &'a P)
    requires
        j < a@.len() + b@.len(),
    ensures
        *r == (a@ + b@)[j as int],
{
    if j < a.len() {
        &a[j]
    } else {
        &b[j - a.len()]
    }
}

/// The number of the item at position `i` of `a` followed by `b` (see
/// [`is_first_equal`]).
fn first_equal<P: PartialEq>(a: &Vec<P>, b: &Vec<P>, i: usize) -> (k: usize)
    requires
        i < a@.len() + b@.len(),
    ensures
        P::obeys_eq_spec() ==> is_first_equal(a@ + b@, i as int, k as int),
        k <= i,
{
    let ghost items = a@ + b@;
    let x = item_at(a, b, i);
    for j in 0..i
        invariant
            i < a@.len() + b@.len(),
            items == a@ + b@,
            *x == items[i as int],
            P::obeys_eq_spec() ==> forall|m: int| 0 <= m < j ==> !(#[trigger] items[m]).eq_spec(&items[i as int]),
    {
        let y = item_at(a, b, j);
        if *y == *x {
            return j;
        }
    }
    i
}

/// Numbers the permissions of `required` followed by those of `granted`:
/// each gets the position, in that sequence, of the first permission equal
/// to it (see [`is_first_equal`]), so that permissions can be matched by
/// their numbers. The numbers agree with `==` where `==` is symmetric and
/// transitive (see [`lemma_numbers_agree_with_eq`]).
pub fn number_permissions<P: PartialEq>(required: &Vec<P>, granted: &Vec<P>) -> (r: (
    Vec<u64>,
    Vec<u64>,
))
    requires
        required@.len() + granted@.len() <= usize::MAX,
    ensures
        r.0@.len() == required@.len(),
        r.1@.len() == granted@.len(),
        P::obeys_eq_spec() ==> numbered(required@, granted@, r.0@, r.1@),
{
    let n = required.len();
    let mut ids: Vec<u64> = Vec::new();
    for i in 0..n
        invariant
            n == required@.len(),
            required@.len() + granted@.len() <= usize::MAX,
            ids@.len() == i,
            P::obeys_eq_spec() ==> forall|m: int|
                0 <= m < i ==> is_first_equal(required@ + granted@, m, #[trigger] ids@[m] as int),
    {
        let k = first_equal(required, granted, i);
        ids.push(k as u64);
    }
    let g = granted.len();
    let mut granted_ids: Vec<u64> = Vec::new();
    for i in 0..g
        invariant
            n == required@.len(),
            g == granted@.len(),
            n + g <= usize::MAX,
            granted_ids@.len() == i,
            P::obeys_eq_spec() ==> forall|m: int|
                0 <= m < i ==> is_first_equal(
                    required@ + granted@,
                    n + m,
                    #[trigger] granted_ids@[m] as int,
                ),
    {
        let k = first_equal(required, granted, n + i);
        granted_ids.push(k as u64);
    }
    (ids, granted_ids)
}

/// Where `==` is symmetric and transitive, two different positions of a
/// sequence get the same number exactly when their items are equal.
pub proof fn lemma_numbers_agree_with_eq<P: PartialEq>(
    items: Seq<P>,
    i: int,
    j: int,
    ki: int,
    kj: int,
)
    requires
        vstd::laws_eq::obeys_eq::<P>(),
        0 <= i < items.len(),
        0 <= j < items.len(),
        i != j,
        is_first_equal(items, i, ki),
        is_first_equal(items, j, kj),
    ensures
        ki == kj <==> items[i].eq_spec(&items[j]),
{
    reveal(vstd::laws_eq::obeys_eq_spec_properties);
    if ki == kj {
        if ki < i && kj < j {
            assert(items[ki].eq_spec(&items[i]));
            assert(items[i].eq_spec(&items[ki]));
            assert(items[ki].eq_spec(&items[j]));
        } else if ki == i {
            assert(items[i].eq_spec(&items[j]));
        } else {
            assert(items[j].eq_spec(&items[i]));
        }
    }
    if items[i].eq_spec(&items[j]) {
        assert(items[j].eq_spec(&items[i]));
        if kj < j {
            assert(items[kj].eq_spec(&items[j]));
            assert(items[kj].eq_spec(&items[i]));
        }
        if ki < i {
            assert(items[ki].eq_spec(&items[i]));
            assert(items[ki].eq_spec(&items[j]));
        }
        if ki < kj {
            assert(!items[ki].eq_spec(&items[j]));
        }
        if kj < ki {
            assert(!items[kj].eq_spec(&items[i]));
        }
    }
}

/// Whether some item of `s` is equal (by `==`) to `x`.
pub open spec fn holds_equal<P: PartialEq>(s: Seq<P>, x: P) -> bool {
    exists|j: int| 0 <= j < s.len() && #[trigger] x.eq_spec(&s[j])
}

/// Whether granted permissions satisfy the required ones under `mode`,
/// comparing permissions by `==`.
pub open spec fn permissions_match_by_eq<P: PartialEq>(
    required: Seq<P>,
    granted: Seq<P>,
    mode: PermissionMatch,
) -> bool {
    match mode {
        PermissionMatch::All => forall|i: int|
            0 <= i < required.len() ==> #[trigger] holds_equal(granted, required[i]),
        PermissionMatch::Any => exists|i: int|
            0 <= i < required.len() && #[trigger] holds_equal(granted, required[i]),
        PermissionMatch::Exact => (forall|i: int|
            0 <= i < required.len() ==> #[trigger] holds_equal(granted, required[i])) && (
        forall|j: int| 0 <= j < granted.len() ==> #[trigger] holds_equal(required, granted[j])),
    }
}

/// Whether `rids` and `gids` number `required` followed by `granted` (as
/// [`number_permissions`] does).
pub open spec fn numbered<P: PartialEq>(
    required: Seq<P>,
    granted: Seq<P>,
    rids: Seq<u64>,
    gids: Seq<u64>,
) -> bool {
    &&& rids.len() == required.len()
    &&& gids.len() == granted.len()
    &&& forall|i: int|
        0 <= i < required.len() ==> is_first_equal(required + granted, i, #[trigger] rids[i] as int)
    &&& forall|j: int|
        0 <= j < granted.len() ==> is_first_equal(
            required + granted,
            required.len() + j,
            #[trigger] gids[j] as int,
        )
}

/// A required permission's number is among the granted numbers exactly when
/// an equal permission is granted, and the other way round.
proof fn lemma_number_in_iff_equal<P: PartialEq>(
    required: Seq<P>,
    granted: Seq<P>,
    rids: Seq<u64>,
    gids: Seq<u64>,
)
    requires
        vstd::laws_eq::obeys_eq::<P>(),
        numbered(required, granted, rids, gids),
    ensures
        forall|i: int|
            0 <= i < required.len() ==> (gids.to_set().contains(#[trigger] rids[i]) <==> holds_equal(
                granted,
                required[i],
            )),
        forall|j: int|
            0 <= j < granted.len() ==> (rids.to_set().contains(#[trigger] gids[j]) <==> holds_equal(
                required,
                granted[j],
            )),
{
    let items = required + granted;
    let n = required.len() as int;
    assert forall|i: int| 0 <= i < required.len() implies (gids.to_set().contains(
        #[trigger] rids[i],
    ) <==> holds_equal(granted, required[i])) by {
        assert(items[i] == required[i]);
        if gids.to_set().contains(rids[i]) {
            let j = choose|j: int| 0 <= j < gids.len() && gids[j] == rids[i];
            assert(is_first_equal(items, n + j, gids[j] as int));
            lemma_numbers_agree_with_eq(items, i, n + j, rids[i] as int, gids[j] as int);
            assert(items[n + j] == granted[j]);
            assert(required[i].eq_spec(&granted[j]));
        }
        if holds_equal(granted, required[i]) {
            let j = choose|j: int| 0 <= j < granted.len() && #[trigger] required[i].eq_spec(&granted[j]);
            assert(items[n + j] == granted[j]);
            assert(is_first_equal(items, n + j, gids[j] as int));
            lemma_numbers_agree_with_eq(items, i, n + j, rids[i] as int, gids[j] as int);
            assert(gids[j] == rids[i]);
            assert(gids.to_set().contains(gids[j]));
        }
    }
    assert forall|j: int| 0 <= j < granted.len() implies (rids.to_set().contains(
        #[trigger] gids[j],
    ) <==> holds_equal(required, granted[j])) by {
        assert(items[n + j] == granted[j]);
        assert(is_first_equal(items, n + j, gids[j] as int));
        if rids.to_set().contains(gids[j]) {
            let i = choose|i: int| 0 <= i < rids.len() && rids[i] == gids[j];
            assert(items[i] == required[i]);
            lemma_numbers_agree_with_eq(items, n + j, i, gids[j] as int, rids[i] as int);
            assert(granted[j].eq_spec(&required[i]));
        }
        if holds_equal(required, granted[j]) {
            let i = choose|i: int| 0 <= i < required.len() && #[trigger] granted[j].eq_spec(&required[i]);
            assert(items[i] == required[i]);
            lemma_numbers_agree_with_eq(items, n + j, i, gids[j] as int, rids[i] as int);
            assert(rids[i] == gids[j]);
            assert(rids.to_set().contains(rids[i]));
        }
    }
}

/// Matching permissions by their numbers is matching them by `==`: where
/// `==` is symmetric and transitive, the numbered permissions match under
/// `mode` exactly when the permissions themselves do.
pub proof fn lemma_numbered_match_is_match_by_eq<P: PartialEq>(
    required: Seq<P>,
    granted: Seq<P>,
    rids: Seq<u64>,
    gids: Seq<u64>,
    mode: PermissionMatch,
)
    requires
        vstd::laws_eq::obeys_eq::<P>(),
        numbered(required, granted, rids, gids),
    ensures
        permissions_match(rids.to_set(), gids.to_set(), mode) == permissions_match_by_eq(
            required,
            granted,
            mode,
        ),
{
    lemma_number_in_iff_equal(required, granted, rids, gids);
    let rs = rids.to_set();
    let gs = gids.to_set();
    let all_r = forall|i: int| 0 <= i < required.len() ==> #[trigger] holds_equal(granted, required[i]);
    let all_g = forall|j: int| 0 <= j < granted.len() ==> #[trigger] holds_equal(required, granted[j]);
    assert(rs.subset_of(gs) == all_r) by {
        if rs.subset_of(gs) {
            assert forall|i: int| 0 <= i < required.len() implies #[trigger] holds_equal(granted, required[i]) by {
                assert(rs.contains(rids[i]));
            }
        }
        if all_r {
            assert forall|p: u64| rs.contains(p) implies gs.contains(p) by {
                let i = choose|i: int| 0 <= i < rids.len() && rids[i] == p;
                assert(holds_equal(granted, required[i]));
            }
        }
    }
    assert(gs.subset_of(rs) == all_g) by {
        if gs.subset_of(rs) {
            assert forall|j: int| 0 <= j < granted.len() implies #[trigger] holds_equal(required, granted[j]) by {
                assert(gs.contains(gids[j]));
            }
        }
        if all_g {
            assert forall|p: u64| gs.contains(p) implies rs.contains(p) by {
                let j = choose|j: int| 0 <= j < gids.len() && gids[j] == p;
                assert(holds_equal(required, granted[j]));
            }
        }
    }
    match mode {
        PermissionMatch::All => {},
        PermissionMatch::Any => {
            let any_r = exists|i: int| 0 <= i < required.len() && #[trigger] holds_equal(granted, required[i]);
            if any_r {
                let i = choose|i: int| 0 <= i < required.len() && #[trigger] holds_equal(granted, required[i]);
                assert(rs.contains(rids[i]) && gs.contains(rids[i]));
            }
            if exists|p: u64| rs.contains(p) && gs.contains(p) {
                let p = choose|p: u64| rs.contains(p) && gs.contains(p);
                let i = choose|i: int| 0 <= i < rids.len() && rids[i] == p;
                assert(holds_equal(granted, required[i]));
            }
        },
        PermissionMatch::Exact => {
            if rs.subset_of(gs) && gs.subset_of(rs) {
                assert(rs =~= gs);
            }
        },
    }
}

/// What a permission check decides, in terms of the permissions alone:
/// nobody logged in is unauthenticated; a logged-in user whose permissions
/// could not be read is unauthorized; otherwise the user is allowed exactly
/// when every required permission is granted (`All`), some required
/// permission is granted (`Any`), or the required and granted permissions
/// are the same ones (`Exact`), and unauthorized when not.
pub proof fn lemma_permission_decision_meaning(
    granted: Seq<u64>,
    required: Seq<u64>,
    mode: PermissionMatch,
)
    ensures
        spec_permission_decision(false, Some(granted), required, mode) == Decision::Unauthenticated,
        spec_permission_decision(false, None, required, mode) == Decision::Unauthenticated,
        spec_permission_decision(true, None, required, mode) == Decision::Unauthorized,
        ({
            let d = spec_permission_decision(true, Some(granted), required, mode);
            let all_granted = forall|i: int| 0 <= i < required.len() ==> granted.contains(#[trigger] required[i]);
            let all_required = forall|j: int| 0 <= j < granted.len() ==> required.contains(#[trigger] granted[j]);
            let some_granted = exists|i: int| 0 <= i < required.len() && granted.contains(#[trigger] required[i]);
            &&& (d == Decision::Allow || d == Decision::Unauthorized)
            &&& mode == PermissionMatch::All ==> (d == Decision::Allow <==> all_granted)
            &&& mode == PermissionMatch::Any ==> (d == Decision::Allow <==> some_granted)
            &&& mode == PermissionMatch::Exact ==> (d == Decision::Allow <==> all_granted && all_required)
        }),
{
    let rs = required.to_set();
    let gs = granted.to_set();
    let all_granted = forall|i: int| 0 <= i < required.len() ==> granted.contains(#[trigger] required[i]);
    let all_required = forall|j: int| 0 <= j < granted.len() ==> required.contains(#[trigger] granted[j]);
    let some_granted = exists|i: int| 0 <= i < required.len() && granted.contains(#[trigger] required[i]);
    assert(rs.subset_of(gs) <==> all_granted) by {
        if rs.subset_of(gs) {
            assert forall|i: int| 0 <= i < required.len() implies granted.contains(#[trigger] required[i]) by {
                assert(rs.contains(required[i]));
            }
        }
        if all_granted {
            assert forall|p: u64| rs.contains(p) implies gs.contains(p) by {
                let i = choose|i: int| 0 <= i < required.len() && required[i] == p;
                assert(granted.contains(required[i]));
            }
        }
    }
    assert(gs.subset_of(rs) <==> all_required) by {
        if gs.subset_of(rs) {
            assert forall|j: int| 0 <= j < granted.len() implies required.contains(#[trigger] granted[j]) by {
                assert(gs.contains(granted[j]));
            }
        }
        if all_required {
            assert forall|p: u64| gs.contains(p) implies rs.contains(p) by {
                let j = choose|j: int| 0 <= j < granted.len() && granted[j] == p;
                assert(required.contains(granted[j]));
            }
        }
    }
    assert((exists|p: u64| rs.contains(p) && gs.contains(p)) <==> some_granted) by {
        if some_granted {
            let i = choose|i: int| 0 <= i < required.len() && granted.contains(#[trigger] required[i]);
            assert(rs.contains(required[i]) && gs.contains(required[i]));
        }
        if exists|p: u64| rs.contains(p) && gs.contains(p) {
            let p = choose|p: u64| rs.contains(p) && gs.contains(p);
            let i = choose|i: int| 0 <= i < required.len() && required[i] == p;
            assert(granted.contains(required[i]));
        }
    }
    assert(rs == gs <==> rs.subset_of(gs) && gs.subset_of(rs)) by {
        if rs.subset_of(gs) && gs.subset_of(rs) {
            assert(rs =~= gs);
        }
    }
}

/// The request reaches the wrapped service exactly when it carries an auth
/// session and the decision allows it; a denied request is answered by the
/// handler for the reason it was denied.
pub proof fn lemma_inner_called_iff_allowed(decision: Option<Decision>)
    ensures
        (spec_route(decision) == Route::CallInner) <==> decision == Some(Decision::Allow),
        decision == Some(Decision::Unauthenticated) ==> spec_route(decision)
            == Route::Unauthenticated,
        decision == Some(Decision::Unauthorized) ==> spec_route(decision) == Route::Unauthorized,
{
}

/// Nobody who is not logged in is allowed by a permission check, and
/// requiring nothing (with `All`) allows every logged-in user whose
/// permissions could be read.
pub proof fn lemma_permission_decision_bounds(
    granted: Option<Seq<u64>>,
    required: Seq<u64>,
    mode: PermissionMatch,
)
    ensures
        spec_permission_decision(false, granted, required, mode) == Decision::Unauthenticated,
        granted is Some && required.len() == 0 ==> spec_permission_decision(
            true,
            granted,
            required,
            PermissionMatch::All,
        ) == Decision::Allow,
{
    if granted is Some && required.len() == 0 {
        assert(required.to_set() =~= Set::<u64>::empty());
    }
}

} // verus!
