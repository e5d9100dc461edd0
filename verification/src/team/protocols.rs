//! Requests between the lead and the teammates, and the plan gate.

use vstd::prelude::*;

use crate::strmap::StrMap;
use crate::text;

verus! {

/// Whether a teammate's changes wait for the approval of a plan.
#[derive(Debug, Clone, Copy, PartialEq, Eq, Structural)]
pub enum GateStatus {
    NotRequired,
    Required,
    Pending,
    Approved,
    Rejected,
}

impl GateStatus {
    /// The tools that change something are blocked.
    pub open spec fn blocks(self) -> bool {
        self == GateStatus::Required || self == GateStatus::Pending || self == GateStatus::Rejected
    }

    /// The name of the status.
    pub open spec fn name(self) -> Seq<char> {
        match self {
            GateStatus::NotRequired => "NotRequired"@,
            GateStatus::Required => "Required"@,
            GateStatus::Pending => "Pending"@,
            GateStatus::Approved => "Approved"@,
            GateStatus::Rejected => "Rejected"@,
        }
    }

    /// Whether the tools that change something are blocked.
    pub fn blocks_mutating_tools(&self) -> (r: bool)
        ensures
            r == self.blocks(),
    {
        matches!(self, GateStatus::Required | GateStatus::Pending | GateStatus::Rejected)
    }

    /// The name of the status, for messages.
    pub fn as_name(&self) -> (r: &'static str)
        ensures
            r@ == self.name(),
    {
        match self {
            GateStatus::NotRequired => "NotRequired",
            GateStatus::Required => "Required",
            GateStatus::Pending => "Pending",
            GateStatus::Approved => "Approved",
            GateStatus::Rejected => "Rejected",
        }
    }
}

/// The kinds of requests.
#[derive(Debug, Clone, Copy, PartialEq, Eq, Structural)]
pub enum ProtocolType {
    Shutdown,
    PlanApproval,
}

impl ProtocolType {
    /// The type of a message that answers such a request.
    pub open spec fn response(self) -> Seq<char> {
        match self {
            ProtocolType::Shutdown => "shutdown_response"@,
            ProtocolType::PlanApproval => "plan_approval_response"@,
        }
    }
}

/// Where a request stands.
#[derive(Debug, Clone, Copy, PartialEq, Eq, Structural)]
pub enum ProtocolStatus {
    Pending,
    Approved,
    Rejected,
}

/// The status that an answer gives a request.
pub open spec fn answered(approve: bool) -> ProtocolStatus {
    if approve {
        ProtocolStatus::Approved
    } else {
        ProtocolStatus::Rejected
    }
}

/// A request.
pub struct ProtocolState {
    pub request_id: String,
    pub ptype: ProtocolType,
    pub sender: String,
    pub target: String,
    pub status: ProtocolStatus,
    pub payload: String,
    pub work_version: Option<u32>,
    pub task_id: Option<String>,
}

/// The mathematical content of a [`ProtocolState`].
#[verifier::ext_equal]
pub struct ProtocolView {
    pub request_id: Seq<char>,
    pub ptype: ProtocolType,
    pub sender: Seq<char>,
    pub target: Seq<char>,
    pub status: ProtocolStatus,
    pub payload: Seq<char>,
    pub work_version: Option<u32>,
    pub task_id: Option<Seq<char>>,
}

impl View for ProtocolState {
    type V = ProtocolView;

    open spec fn view(&self) -> ProtocolView {
        ProtocolView {
            request_id: self.request_id@,
            ptype: self.ptype,
            sender: self.sender@,
            target: self.target@,
            status: self.status,
            payload: self.payload@,
            work_version: self.work_version,
            task_id: text::opt_view(self.task_id),
        }
    }
}

/// The requests, the plan gate of each owner, and the request of its current plan.
pub struct ProtocolRegistry {
    pub pending: StrMap<ProtocolState>,
    pub gates: StrMap<GateStatus>,
    pub plan_request_ids: StrMap<String>,
}

/// The mathematical content of a [`ProtocolRegistry`].
#[verifier::ext_equal]
pub struct ProtocolsView {
    pub requests: Map<Seq<char>, ProtocolView>,
    pub gates: Map<Seq<char>, GateStatus>,
    pub plan_ids: Map<Seq<char>, Seq<char>>,
}

impl View for ProtocolRegistry {
    type V = ProtocolsView;

    open spec fn view(&self) -> ProtocolsView {
        ProtocolsView {
            requests: self.pending@.map_values(|s: ProtocolState| s@),
            gates: self.gates@,
            plan_ids: self.plan_request_ids@.map_values(|s: String| s@),
        }
    }
}

impl ProtocolsView {
    /// The plan gate of an owner; there is none unless it was set.
    pub open spec fn gate(self, owner: Seq<char>) -> GateStatus {
        if self.gates.contains_key(owner) {
            self.gates[owner]
        } else {
            GateStatus::NotRequired
        }
    }

    /// The registry with the plan gate of an owner set.
    pub open spec fn with_gate(self, owner: Seq<char>, g: GateStatus) -> ProtocolsView {
        ProtocolsView { gates: self.gates.insert(owner, g), ..self }
    }

    /// The registry with the status of a request set.
    pub open spec fn with_status(self, id: Seq<char>, status: ProtocolStatus) -> ProtocolsView {
        ProtocolsView {
            requests: self.requests.insert(id, ProtocolView { status, ..self.requests[id] }),
            ..self
        }
    }

    /// An answer that resolves a request: of the type that it expects, from its target to
    /// its sender, while it is pending.
    pub open spec fn resolves(
        self,
        response_type: Seq<char>,
        id: Seq<char>,
        from: Seq<char>,
        to: Seq<char>,
    ) -> bool {
        &&& self.requests.contains_key(id)
        &&& response_type == self.requests[id].ptype.response()
        &&& from == self.requests[id].target
        &&& to == self.requests[id].sender
        &&& self.requests[id].status == ProtocolStatus::Pending
    }

    /// The registry after an answer.
    pub open spec fn after_response(
        self,
        response_type: Seq<char>,
        id: Seq<char>,
        approve: bool,
        from: Seq<char>,
        to: Seq<char>,
    ) -> ProtocolsView {
        if self.resolves(response_type, id, from, to) {
            self.with_status(id, answered(approve))
        } else {
            self
        }
    }
}

/// The digits of a number, with leading zeros, `width` of them.
pub open spec fn padded(n: nat, width: nat) -> Seq<char>
    decreases width,
{
    if width == 0 {
        Seq::empty()
    } else {
        padded(n / 10, (width - 1) as nat).push(text::digit(n % 10))
    }
}

/// The id of the `n`-th request.
pub open spec fn request_name(n: nat) -> Seq<char> {
    "req_"@ + padded(n, 6)
}

/// The number of different ids.
pub const REQUEST_IDS: u32 = 1_000_000;

fn print_padded(n: u32, width: u32) -> (r: String)
    ensures
        r@ == padded(n as nat, width as nat),
    decreases width,
{
    if width == 0 {
        let r = String::new();
        assert(r@ =~= Seq::<char>::empty());
        r
    } else {
        let mut r = print_padded(n / 10, width - 1);
        let d: u8 = (n % 10) as u8;
        r.push((48 + d) as char);
        r
    }
}

/// The power of ten with `w` as its exponent.
pub open spec fn power10(w: nat) -> nat
    decreases w,
{
    if w == 0 {
        1
    } else {
        10 * power10((w - 1) as nat)
    }
}

proof fn padded_differ(a: nat, b: nat, w: nat)
    requires
        a < power10(w),
        b < power10(w),
        padded(a, w) == padded(b, w),
    ensures
        a == b,
    decreases w,
{
    if w > 0 {
        let x = padded(a / 10, (w - 1) as nat);
        let y = padded(b / 10, (w - 1) as nat);
        let da = text::digit(a % 10);
        let db = text::digit(b % 10);
        assert(x.push(da).last() == da && y.push(db).last() == db);
        assert(x =~= x.push(da).drop_last());
        assert(y =~= y.push(db).drop_last());
        assert(a % 10 == b % 10) by {
            assert(da == db);
            assert((48 + a % 10) as u32 as int == 48 + a % 10);
            assert((48 + b % 10) as u32 as int == 48 + b % 10);
            assert(da as u32 == 48 + a % 10);
            assert(db as u32 == 48 + b % 10);
        }
        padded_differ(a / 10, b / 10, (w - 1) as nat);
    }
}

/// Different requests have different ids.
pub proof fn law_request_names_differ(a: nat, b: nat)
    requires
        a < REQUEST_IDS,
        b < REQUEST_IDS,
        a != b,
    ensures
        request_name(a) != request_name(b),
{
    if request_name(a) == request_name(b) {
        assert(padded(a, 6) =~= request_name(a).skip("req_"@.len() as int));
        assert(padded(b, 6) =~= request_name(b).skip("req_"@.len() as int));
        reveal_with_fuel(power10, 7);
        padded_differ(a, b, 6);
    }
}

spec fn first_names(n: nat) -> Set<Seq<char>>
    decreases n,
{
    if n == 0 {
        Set::empty()
    } else {
        first_names((n - 1) as nat).insert(request_name((n - 1) as nat))
    }
}

proof fn first_names_count(n: nat)
    requires
        n <= REQUEST_IDS,
    ensures
        first_names(n).finite(),
        first_names(n).len() == n,
        forall|s: Seq<char>| #[trigger]
            first_names(n).contains(s) ==> exists|i: nat| i < n && s == #[trigger] request_name(i),
    decreases n,
{
    if n > 0 {
        let m = (n - 1) as nat;
        first_names_count(m);
        if first_names(m).contains(request_name(m)) {
            let i = choose|i: nat| i < m && request_name(m) == #[trigger] request_name(i);
            law_request_names_differ(i, m);
        }
        assert forall|s: Seq<char>| #[trigger] first_names(n).contains(s) implies exists|i: nat|
            i < n && s == #[trigger] request_name(i) by {
            if s == request_name(m) {
                assert(m < n);
            } else {
                assert(first_names(m).contains(s));
                let i = choose|i: nat| i < m && s == #[trigger] request_name(i);
                assert(i < n);
            }
        }
    }
}

proof fn names_cannot_all_be_taken(dom: Set<Seq<char>>)
    requires
        dom.finite(),
        forall|i: nat| i < REQUEST_IDS ==> dom.contains(#[trigger] request_name(i)),
    ensures
        dom.len() >= REQUEST_IDS,
{
    let n = REQUEST_IDS as nat;
    first_names_count(n);
    assert(first_names(n).subset_of(dom)) by {
        assert forall|s: Seq<char>| first_names(n).contains(s) implies dom.contains(s) by {
            let i = choose|i: nat| i < n && s == #[trigger] request_name(i);
        }
    }
    vstd::set_lib::lemma_len_subset(first_names(n), dom);
}

/// The counter of request ids. A program has one, so that no two of its registries give the
/// same id.
pub struct RequestIds {
    pub count: u32,
}

impl RequestIds {
    /// A counter that has given nothing yet.
    pub fn new() -> (r: Self)
        ensures
            r.count == 0,
    {
        RequestIds { count: 0 }
    }
}

/// The counter after `k` more draws; behind its largest number it begins again.
pub open spec fn counted_on(count: u32, k: nat) -> u32 {
    ((count + k) % (u32::MAX + 1)) as u32
}

/// The number of the id that the draw after `k` others gives.
pub open spec fn drawn(count: u32, k: nat) -> nat {
    (counted_on(count, k) % REQUEST_IDS) as nat
}

/// The draw after `k` others is the first whose id no request has.
pub open spec fn is_first_free(p: ProtocolsView, count: u32, k: nat) -> bool {
    &&& !p.requests.contains_key(request_name(drawn(count, k)))
    &&& forall|j: nat| j < k ==> p.requests.contains_key(#[trigger] request_name(drawn(count, j)))
}

/// How many draws come before the first whose id no request has.
pub open spec fn first_free(p: ProtocolsView, count: u32) -> nat {
    choose|k: nat| is_first_free(p, count, k)
}

/// The first id that the counter gives and no request has.
pub open spec fn free_name(p: ProtocolsView, count: u32) -> Seq<char> {
    request_name(drawn(count, first_free(p, count)))
}

/// The counter after that id was drawn.
pub open spec fn count_after(p: ProtocolsView, count: u32) -> u32 {
    counted_on(count, first_free(p, count) + 1)
}

proof fn first_free_is_one(p: ProtocolsView, count: u32, a: nat, b: nat)
    requires
        is_first_free(p, count, a),
        is_first_free(p, count, b),
    ensures
        a == b,
{
    if a < b {
        assert(p.requests.contains_key(request_name(drawn(count, a))));
    } else if b < a {
        assert(p.requests.contains_key(request_name(drawn(count, b))));
    }
}

/// A draw that gives the number `i`.
spec fn draw_of(count: u32, i: nat) -> nat {
    let last = u32::MAX as int;
    let c = count as int;
    let m = REQUEST_IDS as int;
    if c + m <= last {
        (if i >= c % m {
            i - c % m
        } else {
            i + m - c % m
        }) as nat
    } else {
        (last + 1 - c + i) as nat
    }
}

proof fn draw_gives(count: u32, i: nat)
    requires
        i < REQUEST_IDS,
    ensures
        draw_of(count, i) < 2 * REQUEST_IDS,
        drawn(count, draw_of(count, i)) == i,
{
    let k = draw_of(count, i);
    let c = count as int;
    let m = REQUEST_IDS as int;
    if c + m <= u32::MAX {
        assert(c + k <= u32::MAX);
        assert((c + k) % (u32::MAX + 1) == c + k);
        let q = c / m;
        assert(c == q * m + c % m) by (nonlinear_arith)
            requires
                m == 1_000_000,
                q == c / m,
        ;
        assert((c + k) % m == i);
    } else {
        assert(c + k == u32::MAX + 1 + i);
        assert((c + k) % (u32::MAX + 1) == i);
    }
}

/// The law of ids: draws that follow each other give different ids, whichever registries
/// they are made for, until the counter has gone round.
pub proof fn law_draws_differ(count: u32, a: nat, b: nat)
    requires
        a < b,
        b - a < REQUEST_IDS,
        count + b <= u32::MAX,
    ensures
        request_name(drawn(count, a)) != request_name(drawn(count, b)),
{
    let x = count + a;
    let y = count + b;
    assert(x % (u32::MAX + 1) == x && y % (u32::MAX + 1) == y);
    if x % (REQUEST_IDS as int) == y % (REQUEST_IDS as int) {
        assert((y - x) % (REQUEST_IDS as int) == 0);
    }
    law_request_names_differ(drawn(count, a), drawn(count, b));
}

impl ProtocolRegistry {
    /// A registry without requests and gates.
    pub fn new() -> (r: Self)
        ensures
            r@.requests == Map::<Seq<char>, ProtocolView>::empty(),
            r@.gates == Map::<Seq<char>, GateStatus>::empty(),
            r@.plan_ids == Map::<Seq<char>, Seq<char>>::empty(),
    {
        let r = ProtocolRegistry {
            pending: StrMap::new(),
            gates: StrMap::new(),
            plan_request_ids: StrMap::new(),
        };
        assert(r@.requests =~= Map::<Seq<char>, ProtocolView>::empty());
        assert(r@.plan_ids =~= Map::<Seq<char>, Seq<char>>::empty());
        r
    }

    /// The plan gate of an owner.
    pub fn gate(&self, owner: &str) -> (r: GateStatus)
        ensures
            r == self@.gate(owner@),
    {
        match self.gates.get(owner) {
            Some(g) => *g,
            None => GateStatus::NotRequired,
        }
    }

    /// Sets the plan gate of an owner.
    pub fn set_gate(&mut self, owner: &str, g: GateStatus)
        ensures
            final(self)@ == old(self)@.with_gate(owner@, g),
    {
        self.gates.insert(owner, g);
    }

    /// Sets the status of a request that is there.
    pub(crate) fn set_status(&mut self, id: &str, status: ProtocolStatus)
        requires
            old(self)@.requests.contains_key(id@),
        ensures
            final(self)@ == old(self)@.with_status(id@, status),
    {
        let ghost before = self@;
        match self.pending.remove(id) {
            Some(mut s) => {
                s.status = status;
                self.pending.insert(id, s);
                assert(self@.requests =~= before.with_status(id@, status).requests);
            },
            None => {},
        }
    }

    /// Takes an answer to a request. It resolves the request where it is of the type that
    /// the request expects, comes from its target and goes to its sender, and the request
    /// is still pending; else nothing changes.
    pub fn match_response(
        &mut self,
        response_type: &str,
        request_id: &str,
        approve: bool,
        from_agent: &str,
        to_agent: &str,
    ) -> (r: bool)
        ensures
            r == old(self)@.resolves(response_type@, request_id@, from_agent@, to_agent@),
            final(self)@ == old(self)@.after_response(
                response_type@,
                request_id@,
                approve,
                from_agent@,
                to_agent@,
            ),
    {
        match self.pending.get(request_id) {
            None => {
                return false;
            },
            Some(state) => {
                let expected: &str = match state.ptype {
                    ProtocolType::Shutdown => "shutdown_response",
                    ProtocolType::PlanApproval => "plan_approval_response",
                };
                if !text::same(response_type, expected) {
                    return false;
                }
                if !text::same(from_agent, state.target.as_str()) || !text::same(
                    to_agent,
                    state.sender.as_str(),
                ) {
                    return false;
                }
                if state.status != ProtocolStatus::Pending {
                    return false;
                }
            },
        }
        self.set_status(
            request_id,
            if approve {
                ProtocolStatus::Approved
            } else {
                ProtocolStatus::Rejected
            },
        );
        true
    }

    /// An id that no request has: the first number that the counter gives whose id is free.
    /// There has to be one left.
    pub fn new_request_id(&self, ids: &mut RequestIds) -> (r: String)
        requires
            self@.requests.dom().len() < REQUEST_IDS,
        ensures
            r@ == free_name(self@, old(ids).count),
            final(ids).count == count_after(self@, old(ids).count),
            !self@.requests.contains_key(r@),
    {
        let ghost p = self@;
        let ghost start = ids.count;
        let taken: usize = self.pending.len();
        assert(self.pending@.dom() =~= p.requests.dom());
        let mut k: u32 = 0;
        assert(counted_on(start, 0) == start);
        while k < 2 * REQUEST_IDS
            invariant
                k <= 2 * REQUEST_IDS,
                p == self@,
                start == old(ids).count,
                self.pending@.dom() == p.requests.dom(),
                p.requests.dom().finite(),
                p.requests.dom().len() < REQUEST_IDS,
                ids.count == counted_on(start, k as nat),
                forall|j: nat|
                    j < k ==> p.requests.contains_key(#[trigger] request_name(drawn(start, j))),
            decreases 2 * REQUEST_IDS - k,
        {
            let n: u32 = ids.count % REQUEST_IDS;
            ids.count = if ids.count == u32::MAX {
                0
            } else {
                ids.count + 1
            };
            let id = "req_".to_string().concat(print_padded(n, 6).as_str());
            assert(id@ == request_name(drawn(start, k as nat)));
            assert(ids.count == counted_on(start, k as nat + 1));
            if !self.pending.contains_key(id.as_str()) {
                proof {
                    assert(is_first_free(p, start, k as nat));
                    first_free_is_one(p, start, k as nat, first_free(p, start));
                }
                return id;
            }
            k += 1;
        }
        proof {
            assert forall|i: nat| i < REQUEST_IDS implies p.requests.dom().contains(
                #[trigger] request_name(i),
            ) by {
                let j = draw_of(start, i);
                draw_gives(start, i);
                assert(p.requests.contains_key(request_name(drawn(start, j))));
            }
            names_cannot_all_be_taken(p.requests.dom());
        }
        String::new()
    }
}

/// A request is resolved once: the same answer, or any other, has no effect after that.
pub proof fn law_resolved_once(
    p: ProtocolsView,
    response_type: Seq<char>,
    id: Seq<char>,
    approve: bool,
    from: Seq<char>,
    to: Seq<char>,
    response_type2: Seq<char>,
    approve2: bool,
    from2: Seq<char>,
    to2: Seq<char>,
)
    requires
        p.resolves(response_type, id, from, to),
    ensures
        ({
            let q = p.after_response(response_type, id, approve, from, to);
            &&& q.requests[id].status == answered(approve)
            &&& !q.resolves(response_type2, id, from2, to2)
            &&& q.after_response(response_type2, id, approve2, from2, to2) == q
        }),
{
}

/// An answer changes no request but its own, and no gate.
pub proof fn law_response_is_local(
    p: ProtocolsView,
    response_type: Seq<char>,
    id: Seq<char>,
    approve: bool,
    from: Seq<char>,
    to: Seq<char>,
    other: Seq<char>,
)
    requires
        other != id,
    ensures
        ({
            let q = p.after_response(response_type, id, approve, from, to);
            &&& q.requests.contains_key(other) == p.requests.contains_key(other)
            &&& p.requests.contains_key(other) ==> q.requests[other] == p.requests[other]
            &&& q.gates == p.gates
            &&& q.plan_ids == p.plan_ids
        }),
{
}

} // verus!
