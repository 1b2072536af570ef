//! Player-to-player trade sessions: staging, acceptance and the atomic swap.

use vstd::prelude::*;
use crate::error::CoreError;
use crate::items::{ItemInstance, ItemView, ContainerView, ContainersView, PlayerContainer, PlayerContainers, merge_or_insert_model, item_views};
use crate::keys::{map_keys, strictly_increasing, map_entry_mut};
use crate::world::{WorldState, WorldModel, bumped};
use crate::world::transfers::with_items;

verus! {

broadcast use {vstd::std_specs::btree::group_btree_axioms, vstd::laws_cmp::group_laws_cmp};

/// Maximum items one side may stage.
pub const MAX_TRADE_ITEMS_PER_SIDE: usize = 20;

/// A reference into one player's owned container inventory for trade staging.
#[derive(Debug, Clone, Copy, PartialEq, Eq, Structural)]
pub struct TradeItemReference {
    pub container_id: u8,
    pub item_index: usize,
}

/// One staged trade between an initiator and a counterparty, stored under the initiator.
#[derive(Debug, Clone, PartialEq, Eq)]
pub struct PlayerTradeSession {
    pub initiator: u64,
    pub counterparty: u64,
    pub initiator_items: Vec<TradeItemReference>,
    pub counterparty_items: Vec<TradeItemReference>,
    pub initiator_accepted: bool,
    pub counterparty_accepted: bool,
    pub tick_opened: u64,
}

/// The mathematical model of a trade session.
#[verifier::ext_equal]
pub struct TradeSessionView {
    pub initiator: u64,
    pub counterparty: u64,
    pub initiator_items: Seq<TradeItemReference>,
    pub counterparty_items: Seq<TradeItemReference>,
    pub initiator_accepted: bool,
    pub counterparty_accepted: bool,
    pub tick_opened: u64,
}

impl View for PlayerTradeSession {
    type V = TradeSessionView;

    open spec fn view(&self) -> TradeSessionView {
        TradeSessionView {
            initiator: self.initiator,
            counterparty: self.counterparty,
            initiator_items: self.initiator_items@,
            counterparty_items: self.counterparty_items@,
            initiator_accepted: self.initiator_accepted,
            counterparty_accepted: self.counterparty_accepted,
            tick_opened: self.tick_opened,
        }
    }
}

/// Copies a reference sequence.
fn copy_refs(v: &Vec<TradeItemReference>) -> (r: Vec<TradeItemReference>)
    ensures
        r@ == v@,
{
    let mut out: Vec<TradeItemReference> = Vec::new();
    let mut i: usize = 0;
    while i < v.len()
        invariant
            i <= v@.len(),
            out@ =~= v@.take(i as int),
        decreases v.len() - i,
    {
        out.push(v[i]);
        i = i + 1;
    }
    assert(v@.take(v@.len() as int) =~= v@);
    out
}

impl PlayerTradeSession {
    /// A copy equal to this session.
    pub fn duplicate(&self) -> (r: PlayerTradeSession)
        ensures
            r@ == self@,
    {
        PlayerTradeSession {
            initiator: self.initiator,
            counterparty: self.counterparty,
            initiator_items: copy_refs(&self.initiator_items),
            counterparty_items: copy_refs(&self.counterparty_items),
            initiator_accepted: self.initiator_accepted,
            counterparty_accepted: self.counterparty_accepted,
            tick_opened: self.tick_opened,
        }
    }
}

/// What an executed trade moved.
#[derive(Debug, Clone, PartialEq, Eq)]
pub struct PlayerTradeExecution {
    pub initiator: u64,
    pub counterparty: u64,
    /// Items that left the initiator (the counterparty received them).
    pub initiator_gave: Vec<ItemInstance>,
    /// Items that left the counterparty (the initiator received them).
    pub counterparty_gave: Vec<ItemInstance>,
}

/// The decimal digit character of `d` (below ten).
pub open spec fn digit_char(d: nat) -> char {
    (d + 48) as char
}

/// The decimal notation of `n`, without leading zeros.
pub open spec fn decimal_text(n: nat) -> Seq<char>
    decreases n,
{
    if n < 10 {
        seq![digit_char(n)]
    } else {
        decimal_text(n / 10).push(digit_char(n % 10))
    }
}

/// The text of the error for a participant without room for a traded item.
pub open spec fn trade_no_space_text(owner: u64) -> Seq<char> {
    "player "@ + decimal_text(owner as nat) + " has no space for a traded item"@
}

/// Formats the error text for a participant without room for a traded item: `format!` writes
/// the identifier in decimal (the `Display` of an unsigned integer) between the two fixed parts.
#[verifier::external_body]
fn trade_no_space_message(owner: u64) -> (r: String)
    ensures
        r@ == trade_no_space_text(owner),
{
    format!("player {owner} has no space for a traded item")
}

/// `k` is the least initiator of a session whose counterparty is `p`.
pub open spec fn least_initiator(trades: Map<u64, TradeSessionView>, p: u64, k: u64) -> bool {
    &&& trades.contains_key(k)
    &&& trades[k].counterparty == p
    &&& forall|j: u64| #[trigger] trades.contains_key(j) && trades[j].counterparty == p ==> k <= j
}

/// The key of the session a player takes part in: its own key, else the least initiator whose
/// counterparty it is.
pub open spec fn trade_key(trades: Map<u64, TradeSessionView>, p: u64) -> Option<u64> {
    if trades.contains_key(p) {
        Some(p)
    } else if exists|k: u64| least_initiator(trades, p, k) {
        Some(choose|k: u64| least_initiator(trades, p, k))
    } else {
        None
    }
}

/// The items of one side of a session.
pub open spec fn side_items(s: TradeSessionView, initiator_side: bool) -> Seq<TradeItemReference> {
    if initiator_side { s.initiator_items } else { s.counterparty_items }
}

/// The session after one side's offer becomes `items`: both acceptances reset, since an offer
/// changed.
pub open spec fn with_offer(s: TradeSessionView, initiator_side: bool, items: Seq<TradeItemReference>) -> TradeSessionView {
    if initiator_side {
        TradeSessionView { initiator_items: items, initiator_accepted: false, counterparty_accepted: false, ..s }
    } else {
        TradeSessionView { counterparty_items: items, initiator_accepted: false, counterparty_accepted: false, ..s }
    }
}

/// The session after the player's acceptance.
pub open spec fn accepted_by(s: TradeSessionView, p: u64) -> TradeSessionView {
    if s.initiator == p {
        TradeSessionView { initiator_accepted: true, ..s }
    } else {
        TradeSessionView { counterparty_accepted: true, ..s }
    }
}

/// A reference that does not resolve against a container table.
pub open spec fn unresolved(cs: ContainersView, r: TradeItemReference) -> bool {
    !cs.contains_key(r.container_id) || r.item_index >= cs[r.container_id].items.items.len()
}

/// The first staged reference of `refs` that does not resolve, if any.
pub open spec fn first_unresolved(cs: ContainersView, refs: Seq<TradeItemReference>) -> Option<TradeItemReference>
    decreases refs.len(),
{
    if refs.len() == 0 {
        None
    } else {
        match first_unresolved(cs, refs.drop_last()) {
            Some(r) => Some(r),
            None => if unresolved(cs, refs.last()) { Some(refs.last()) } else { None },
        }
    }
}

/// The first staged reference that repeats an earlier one, if any.
pub open spec fn first_repeated(refs: Seq<TradeItemReference>) -> Option<TradeItemReference>
    decreases refs.len(),
{
    if refs.len() == 0 {
        None
    } else {
        match first_repeated(refs.drop_last()) {
            Some(r) => Some(r),
            None => if refs.drop_last().contains(refs.last()) { Some(refs.last()) } else { None },
        }
    }
}

/// The item indices of window `id` that the staged references name.
pub open spec fn named_in(refs: Seq<TradeItemReference>, id: u8) -> Set<int> {
    Set::new(|j: int| exists|k: int| 0 <= k < refs.len() && (#[trigger] refs[k]).container_id == id && refs[k].item_index == j)
}

/// The items of `s` from index `i` on, without those whose index is in `removed`.
pub open spec fn kept_items(s: Seq<ItemView>, removed: Set<int>, i: int) -> Seq<ItemView>
    decreases s.len() - i,
{
    if i >= s.len() || i < 0 {
        Seq::empty()
    } else if removed.contains(i) {
        kept_items(s, removed, i + 1)
    } else {
        seq![s[i]] + kept_items(s, removed, i + 1)
    }
}

/// The items the staged references resolve to, in staging order.
pub open spec fn resolved(cs: ContainersView, refs: Seq<TradeItemReference>) -> Seq<ItemView> {
    Seq::new(refs.len(), |k: int| cs[refs[k].container_id].items.items[refs[k].item_index as int])
}

/// The windows after every staged item leaves, each at the index it was staged from.
pub open spec fn without_staged(cs: ContainersView, refs: Seq<TradeItemReference>) -> ContainersView {
    Map::new(|id: u8| cs.contains_key(id),
        |id: u8| with_items(cs[id], kept_items(cs[id].items.items, named_in(refs, id), 0)))
}

/// Taking the staged items out of the windows: the resolved items leave from the indices they
/// were staged at; a repeated reference aborts.
pub open spec fn take_refs(cs: ContainersView, refs: Seq<TradeItemReference>) -> Result<(ContainersView, Seq<ItemView>), TradeItemReference> {
    match first_repeated(refs) {
        Some(r) => Err(r),
        None => Ok((without_staged(cs, refs), resolved(cs, refs))),
    }
}

/// Placing one item into the first container (ascending from `code`) that merges or appends it.
pub open spec fn fit_from(cs: ContainersView, item: ItemView, code: int) -> Option<ContainersView>
    decreases 256 - code,
{
    if code >= 256 || code < 0 {
        None
    } else if cs.contains_key(code as u8) && merge_or_insert_model(cs[code as u8].items, item) is Ok {
        Some(cs.insert(code as u8, ContainerView { items: merge_or_insert_model(cs[code as u8].items, item)->Ok_0.0,
            ..cs[code as u8] }))
    } else {
        fit_from(cs, item, code + 1)
    }
}

/// Delivering received items one after another.
pub open spec fn deliver_all(cs: ContainersView, items: Seq<ItemView>) -> Option<ContainersView>
    decreases items.len(),
{
    if items.len() == 0 {
        Some(cs)
    } else {
        match deliver_all(cs, items.drop_last()) {
            None => None,
            Some(c1) => fit_from(c1, items.last(), 0),
        }
    }
}

/// A player's container windows, empty when the player has none.
pub open spec fn tables_of(m: WorldModel, p: u64) -> ContainersView {
    if m.containers.contains_key(p) { m.containers[p] } else { Map::empty() }
}

/// Writes a player's windows back where the player has a container table.
pub open spec fn put_back(tables: Map<u64, ContainersView>, p: u64, cs: ContainersView) -> Map<u64, ContainersView> {
    if tables.contains_key(p) { tables.insert(p, cs) } else { tables }
}

/// Why a trade cannot be carried out: the owner, and the reference that did not resolve
/// (`None` when the owner had no room for a received item).
pub type TradeFailure = (u64, Option<TradeItemReference>);

/// The outcome of swapping the staged items of `s` between the two window tables: both tables
/// afterwards and the items each side gave, or the first failure.
pub open spec fn trade_result(ca: ContainersView, cb: ContainersView, s: TradeSessionView)
    -> Result<(ContainersView, ContainersView, Seq<ItemView>, Seq<ItemView>), TradeFailure>
{
    let a = s.initiator;
    let b = s.counterparty;
    if first_unresolved(ca, s.initiator_items) is Some {
        Err((a, first_unresolved(ca, s.initiator_items)))
    } else if first_unresolved(cb, s.counterparty_items) is Some {
        Err((b, first_unresolved(cb, s.counterparty_items)))
    } else {
        match take_refs(ca, s.initiator_items) {
            Err(bad) => Err((a, Some(bad))),
            Ok((ra, gave_a)) => match take_refs(cb, s.counterparty_items) {
                Err(bad) => Err((b, Some(bad))),
                Ok((rb, gave_b)) => match deliver_all(ra, gave_b) {
                    None => Err((a, None)),
                    Some(fa) => match deliver_all(rb, gave_a) {
                        None => Err((b, None)),
                        Some(fb) => Ok((fa, fb, gave_a, gave_b)),
                    },
                },
            },
        }
    }
}

/// The error reported for a trade failure.
pub open spec fn reports(e: CoreError, f: TradeFailure) -> bool {
    match f.1 {
        Some(bad) => e == CoreError::TradeItemMissing { player_id: f.0, container_id: bad.container_id,
            item_index: bad.item_index },
        None => e is TradeValidationFailed && e->TradeValidationFailed_0@ == trade_no_space_text(f.0),
    }
}

fn missing(owner: u64, r: TradeItemReference) -> (e: CoreError)
    ensures
        e == (CoreError::TradeItemMissing { player_id: owner, container_id: r.container_id, item_index: r.item_index }),
{
    CoreError::TradeItemMissing { player_id: owner, container_id: r.container_id, item_index: r.item_index }
}

/// The first unresolvable reference, checked against a container table.
fn check_refs(cs: &PlayerContainers, refs: &Vec<TradeItemReference>) -> (r: Option<TradeItemReference>)
    ensures
        r == first_unresolved(cs@, refs@),
{
    let mut i: usize = 0;
    while i < refs.len()
        invariant
            i <= refs@.len(),
            first_unresolved(cs@, refs@.take(i as int)) is None,
        decreases refs.len() - i,
    {
        let r = refs[i];
        proof { assert(refs@.take(i + 1).drop_last() =~= refs@.take(i as int)); }
        let ok = match cs.container(r.container_id) {
            Some(c) => r.item_index < c.items.len(),
            None => false,
        };
        if !ok {
            proof { lemma_first_unresolved_prefix(cs@, refs@, i as int + 1); }
            return Some(r);
        }
        i = i + 1;
    }
    proof { assert(refs@.take(refs@.len() as int) =~= refs@); }
    None
}

/// The first unresolvable reference of a prefix is the first of the whole sequence.
proof fn lemma_first_unresolved_prefix(cs: ContainersView, refs: Seq<TradeItemReference>, n: int)
    requires
        0 < n <= refs.len(),
        first_unresolved(cs, refs.take(n - 1)) is None,
        unresolved(cs, refs[n - 1]),
    ensures
        first_unresolved(cs, refs) == Some(refs[n - 1]),
    decreases refs.len() - n,
{
    assert(refs.take(n).drop_last() =~= refs.take(n - 1));
    if n < refs.len() {
        assert(refs.take(n + 1).drop_last() =~= refs.take(n));
        lemma_first_unresolved_extends(cs, refs, n + 1);
    } else {
        assert(refs.take(n) =~= refs);
    }
}

proof fn lemma_first_unresolved_extends(cs: ContainersView, refs: Seq<TradeItemReference>, n: int)
    requires
        0 < n <= refs.len(),
        first_unresolved(cs, refs.take(n - 1)) is Some,
    ensures
        first_unresolved(cs, refs) == first_unresolved(cs, refs.take(n - 1)),
    decreases refs.len() - n,
{
    assert(refs.take(n).drop_last() =~= refs.take(n - 1));
    if n < refs.len() {
        lemma_first_unresolved_extends(cs, refs, n + 1);
    } else {
        assert(refs.take(n) =~= refs);
    }
}

/// The first staged reference that repeats an earlier one.
fn find_repeated(refs: &Vec<TradeItemReference>) -> (r: Option<TradeItemReference>)
    ensures
        r == first_repeated(refs@),
{
    let mut k: usize = 0;
    while k < refs.len()
        invariant
            k <= refs@.len(),
            first_repeated(refs@.take(k as int)) is None,
        decreases refs.len() - k,
    {
        let x = refs[k];
        let mut j: usize = 0;
        while j < k
            invariant
                j <= k < refs@.len(),
                x == refs@[k as int],
                first_repeated(refs@.take(k as int)) is None,
                forall|q: int| 0 <= q < j ==> refs@[q] != x,
            decreases k - j,
        {
            if refs[j] == x {
                proof {
                    assert(refs@.take(k + 1).drop_last() =~= refs@.take(k as int));
                    assert(refs@.take(k as int)[j as int] == x);
                    assert(refs@.take(k as int).contains(x));
                    assert(refs@.take(k + 1).last() == x);
                    assert(first_repeated(refs@.take(k + 1)) == Some(x));
                    lemma_first_repeated_sticks(refs@, k + 1, refs@.len() as int);
                    assert(refs@.take(refs@.len() as int) =~= refs@);
                }
                return Some(x);
            }
            j = j + 1;
        }
        proof {
            assert(refs@.take(k + 1).drop_last() =~= refs@.take(k as int));
            assert(!refs@.take(k as int).contains(x));
        }
        k = k + 1;
    }
    proof { assert(refs@.take(refs@.len() as int) =~= refs@); }
    None
}

proof fn lemma_first_repeated_sticks(refs: Seq<TradeItemReference>, k: int, n: int)
    requires
        0 <= k <= n <= refs.len(),
        first_repeated(refs.take(k)) is Some,
    ensures
        first_repeated(refs.take(n)) == first_repeated(refs.take(k)),
    decreases n - k,
{
    if n > k {
        lemma_first_repeated_sticks(refs, k, n - 1);
        assert(refs.take(n).drop_last() =~= refs.take(n - 1));
    }
}

proof fn lemma_first_unresolved_none(cs: ContainersView, refs: Seq<TradeItemReference>)
    requires
        first_unresolved(cs, refs) is None,
    ensures
        forall|k: int| 0 <= k < refs.len() ==> !unresolved(cs, #[trigger] refs[k]),
    decreases refs.len(),
{
    if refs.len() > 0 {
        lemma_first_unresolved_none(cs, refs.drop_last());
        assert forall|k: int| 0 <= k < refs.len() implies !unresolved(cs, #[trigger] refs[k]) by {
            if k < refs.len() - 1 {
                assert(refs[k] == refs.drop_last()[k]);
            }
        }
    }
}

proof fn lemma_kept_items_untouched(s: Seq<ItemView>, removed: Set<int>, i: int)
    requires
        0 <= i <= s.len(),
        forall|j: int| i <= j < s.len() ==> !removed.contains(j),
    ensures
        kept_items(s, removed, i) == s.subrange(i, s.len() as int),
    decreases s.len() - i,
{
    if i < s.len() {
        lemma_kept_items_untouched(s, removed, i + 1);
        assert(seq![s[i]] + s.subrange(i + 1, s.len() as int) =~= s.subrange(i, s.len() as int));
    } else {
        assert(s.subrange(i, s.len() as int) =~= Seq::<ItemView>::empty());
    }
}

/// True when a staged reference names item `j` of window `id`.
fn names_item(refs: &Vec<TradeItemReference>, id: u8, j: usize) -> (r: bool)
    ensures
        r == named_in(refs@, id).contains(j as int),
{
    let mut k: usize = 0;
    while k < refs.len()
        invariant
            k <= refs@.len(),
            forall|q: int| 0 <= q < k ==> !((#[trigger] refs@[q]).container_id == id && refs@[q].item_index == j),
        decreases refs.len() - k,
    {
        if refs[k].container_id == id && refs[k].item_index == j {
            return true;
        }
        k = k + 1;
    }
    false
}

/// True when a staged reference before `k` names the window of reference `k`.
fn window_named_before(refs: &Vec<TradeItemReference>, k: usize) -> (r: bool)
    requires
        k < refs@.len(),
    ensures
        r == window_named(refs@, k as int, refs@[k as int].container_id),
{
    let mut q: usize = 0;
    while q < k
        invariant
            q <= k < refs@.len(),
            forall|i: int| 0 <= i < q ==> (#[trigger] refs@[i]).container_id != refs@[k as int].container_id,
        decreases k - q,
    {
        if refs[q].container_id == refs[k].container_id {
            return true;
        }
        q = q + 1;
    }
    false
}

/// Some staged reference before `k` names window `id`.
pub open spec fn window_named(refs: Seq<TradeItemReference>, k: int, id: u8) -> bool {
    exists|q: int| 0 <= q < k && (#[trigger] refs[q]).container_id == id
}

/// Removes, from the back, every item of one window whose index a staged reference names.
fn drop_staged_items(c: &mut PlayerContainer, refs: &Vec<TradeItemReference>, id: u8)
    ensures
        final(c)@ == with_items(old(c)@, kept_items(old(c)@.items.items, named_in(refs@, id), 0)),
{
    let ghost s = c@.items.items;
    let ghost r = named_in(refs@, id);
    let mut j: usize = c.items.len();
    proof {
        assert(s.subrange(0, j as int) =~= s);
        assert(kept_items(s, r, j as int) =~= Seq::<ItemView>::empty());
        assert(c@ == with_items(old(c)@, s.subrange(0, j as int) + kept_items(s, r, j as int)));
    }
    while j > 0
        invariant
            j <= s.len(),
            s == old(c)@.items.items,
            r == named_in(refs@, id),
            c@ == with_items(old(c)@, s.subrange(0, j as int) + kept_items(s, r, j as int)),
        decreases j,
    {
        j = j - 1;
        if names_item(refs, id, j) {
            proof {
                assert(s.subrange(0, j + 1) + kept_items(s, r, j + 1) =~= (s.subrange(0, j as int)
                    + kept_items(s, r, j as int)).insert(j as int, s[j as int]));
            }
            c.items.remove(j);
            proof {
                assert((s.subrange(0, j as int) + kept_items(s, r, j as int)).insert(j as int, s[j as int]).remove(j as int)
                    =~= s.subrange(0, j as int) + kept_items(s, r, j as int));
            }
        } else {
            proof {
                assert(s.subrange(0, j + 1) + kept_items(s, r, j + 1) =~= s.subrange(0, j as int) + kept_items(s, r, j as int));
            }
        }
    }
    proof { assert(s.subrange(0, 0) + kept_items(s, r, 0) =~= kept_items(s, r, 0)); }
}

/// Takes the staged items out of a working copy: each resolved item leaves from the index it was
/// staged at.
fn take_staged(cs: &mut PlayerContainers, refs: &Vec<TradeItemReference>) -> (r: Result<Vec<ItemInstance>, TradeItemReference>)
    requires
        first_unresolved(old(cs)@, refs@) is None,
    ensures
        match take_refs(old(cs)@, refs@) {
            Err(bad) => r == Err::<Vec<ItemInstance>, TradeItemReference>(bad) && final(cs)@ == old(cs)@,
            Ok((c, items)) => r is Ok && item_views(r->Ok_0@) == items && final(cs)@ == c,
        },
{
    if let Some(bad) = find_repeated(refs) {
        return Err(bad);
    }
    let ghost c0 = cs@;
    proof { lemma_first_unresolved_none(c0, refs@); }
    let mut taken: Vec<ItemInstance> = Vec::new();
    let mut i: usize = 0;
    while i < refs.len()
        invariant
            i <= refs@.len(),
            cs@ == c0,
            forall|k: int| 0 <= k < refs@.len() ==> !unresolved(c0, #[trigger] refs@[k]),
            item_views(taken@) == resolved(c0, refs@).take(i as int),
        decreases refs.len() - i,
    {
        let r = refs[i];
        assert(!unresolved(c0, refs@[i as int]));
        let item = cs.container(r.container_id).unwrap().items.item(r.item_index).unwrap().duplicate();
        let ghost before = taken@;
        taken.push(item);
        proof {
            assert(item_views(taken@) =~= item_views(before).push(item@));
            assert(resolved(c0, refs@).take(i + 1) =~= resolved(c0, refs@).take(i as int).push(item@));
        }
        i = i + 1;
    }
    proof { assert(resolved(c0, refs@).take(refs@.len() as int) =~= resolved(c0, refs@)); }
    let mut k: usize = 0;
    while k < refs.len()
        invariant
            k <= refs@.len(),
            forall|q: int| 0 <= q < refs@.len() ==> !unresolved(c0, #[trigger] refs@[q]),
            cs@.dom() =~= c0.dom(),
            forall|id: u8| #[trigger] c0.contains_key(id) ==> cs@[id] == (
                if window_named(refs@, k as int, id) {
                    with_items(c0[id], kept_items(c0[id].items.items, named_in(refs@, id), 0))
                } else {
                    c0[id]
                }),
        decreases refs.len() - k,
    {
        let id = refs[k].container_id;
        let ghost kk = k as int;
        assert(!unresolved(c0, refs@[kk]));
        if !window_named_before(refs, k) {
            let mut c = cs.container(id).unwrap().duplicate();
            drop_staged_items(&mut c, refs, id);
            cs.replace_window(id, c);
        }
        proof {
            assert forall|id2: u8| #[trigger] c0.contains_key(id2) implies cs@[id2] == (
                if window_named(refs@, k + 1, id2) {
                    with_items(c0[id2], kept_items(c0[id2].items.items, named_in(refs@, id2), 0))
                } else {
                    c0[id2]
                }) by {
                if id2 == id {
                    assert(window_named(refs@, k + 1, id2));
                } else if window_named(refs@, k + 1, id2) {
                    let q = choose|q: int| 0 <= q < k + 1 && (#[trigger] refs@[q]).container_id == id2;
                    assert(q != kk);
                    assert(window_named(refs@, k as int, id2));
                }
            }
        }
        k = k + 1;
    }
    proof {
        assert forall|id: u8| #[trigger] c0.contains_key(id) implies cs@[id] == with_items(c0[id],
            kept_items(c0[id].items.items, named_in(refs@, id), 0)) by {
            if !window_named(refs@, refs@.len() as int, id) {
                let s = c0[id].items.items;
                assert forall|j: int| 0 <= j < s.len() implies !named_in(refs@, id).contains(j) by {
                    if named_in(refs@, id).contains(j) {
                        let q = choose|q: int| 0 <= q < refs@.len() && (#[trigger] refs@[q]).container_id == id && refs@[q].item_index == j;
                        assert(window_named(refs@, refs@.len() as int, id));
                    }
                }
                lemma_kept_items_untouched(s, named_in(refs@, id), 0);
                assert(s.subrange(0, s.len() as int) =~= s);
                assert(with_items(c0[id], s) == c0[id]);
            }
        }
        assert(cs@ =~= without_staged(c0, refs@));
    }
    Ok(taken)
}

/// Places one item into the first window, in identifier order, whose items absorb it.
fn place_one(cs: &mut PlayerContainers, item: &ItemInstance) -> (r: bool)
    ensures
        match fit_from(old(cs)@, item@, 0) {
            None => !r && final(cs)@ == old(cs)@,
            Some(c) => r && final(cs)@ == c,
        },
{
    let mut code: u16 = 0;
    while code < 256
        invariant
            code <= 256,
            cs@ == old(cs)@,
            fit_from(old(cs)@, item@, 0) == fit_from(old(cs)@, item@, code as int),
        decreases 256 - code,
    {
        let k = code as u8;
        assert(k == code);
        if let Some(c) = cs.container(k) {
            let mut copy = c.duplicate();
            if copy.items.merge_or_insert_stack(item.duplicate()).is_ok() {
                cs.replace_window(k, copy);
                return true;
            }
        }
        code = code + 1;
    }
    false
}

/// Places each received item into the first container that accepts it.
fn deliver(cs: &mut PlayerContainers, items: &Vec<ItemInstance>) -> (r: bool)
    ensures
        match deliver_all(old(cs)@, item_views(items@)) {
            None => !r,
            Some(c) => r && final(cs)@ == c,
        },
{
    let mut i: usize = 0;
    proof { assert(item_views(items@.take(0)) =~= Seq::<ItemView>::empty()); }
    while i < items.len()
        invariant
            i <= items@.len(),
            deliver_all(old(cs)@, item_views(items@.take(i as int))) == Some(cs@),
        decreases items.len() - i,
    {
        proof {
            assert(item_views(items@.take(i + 1)).drop_last() =~= item_views(items@.take(i as int)));
            assert(item_views(items@.take(i + 1)).last() == items@[i as int]@);
        }
        if !place_one(cs, &items[i]) {
            proof {
                assert(item_views(items@).take(i + 1) =~= item_views(items@.take(i + 1)));
                lemma_deliver_fails(old(cs)@, item_views(items@), i as int + 1);
            }
            return false;
        }
        i = i + 1;
    }
    proof { assert(items@.take(items@.len() as int) =~= items@); }
    true
}

proof fn lemma_deliver_fails(cs: ContainersView, items: Seq<ItemView>, n: int)
    requires
        0 < n <= items.len(),
        deliver_all(cs, items.take(n)) is None,
    ensures
        deliver_all(cs, items) is None,
    decreases items.len() - n,
{
    if n < items.len() {
        assert(items.take(n + 1).drop_last() =~= items.take(n));
        lemma_deliver_fails(cs, items, n + 1);
    } else {
        assert(items.take(n) =~= items);
    }
}

/// Carries out the swap on working copies of both window tables.
fn run_trade(ca: &mut PlayerContainers, cb: &mut PlayerContainers, s: &PlayerTradeSession)
    -> (r: Result<(Vec<ItemInstance>, Vec<ItemInstance>), CoreError>)
    ensures
        match trade_result(old(ca)@, old(cb)@, s@) {
            Err(f) => r is Err && reports(r->Err_0, f),
            Ok((fa, fb, ga, gb)) => {
                &&& r is Ok
                &&& final(ca)@ == fa
                &&& final(cb)@ == fb
                &&& item_views(r->Ok_0.0@) == ga
                &&& item_views(r->Ok_0.1@) == gb
            },
        },
{
    let a = s.initiator;
    let b = s.counterparty;
    if let Some(bad) = check_refs(ca, &s.initiator_items) {
        return Err(missing(a, bad));
    }
    if let Some(bad) = check_refs(cb, &s.counterparty_items) {
        return Err(missing(b, bad));
    }
    let gave_a = match take_staged(ca, &s.initiator_items) {
        Ok(items) => items,
        Err(bad) => { return Err(missing(a, bad)); },
    };
    let gave_b = match take_staged(cb, &s.counterparty_items) {
        Ok(items) => items,
        Err(bad) => { return Err(missing(b, bad)); },
    };
    if !deliver(ca, &gave_b) {
        return Err(CoreError::TradeValidationFailed(trade_no_space_message(a)));
    }
    if !deliver(cb, &gave_a) {
        return Err(CoreError::TradeValidationFailed(trade_no_space_message(b)));
    }
    Ok((gave_a, gave_b))
}

impl WorldState {
    /// Opens a trade between two distinct living players who are not trading.
    pub fn open_player_trade(&mut self, initiator: u64, counterparty: u64) -> (r: Result<&PlayerTradeSession, CoreError>)
        ensures
            r is Err ==> final(self)@ == old(self)@,
            r is Ok ==> final(self)@ == opened(old(self)@, initiator, counterparty),
            ({
                let m = old(self)@;
                let dead = |p: u64| m.respawn_states.contains_key(p) && m.respawn_states[p].dead;
                if initiator == counterparty {
                    r is Err && r->Err_0 == CoreError::TradeWithSelf
                } else if !m.players.contains_key(initiator) {
                    r is Err && r->Err_0 == CoreError::UnknownPlayer(initiator)
                } else if dead(initiator) {
                    r is Err && r->Err_0 == CoreError::PlayerIsDead(initiator)
                } else if !m.players.contains_key(counterparty) {
                    r is Err && r->Err_0 == CoreError::UnknownPlayer(counterparty)
                } else if dead(counterparty) {
                    r is Err && r->Err_0 == CoreError::PlayerIsDead(counterparty)
                } else if m.trades.contains_key(initiator) || m.trades.contains_key(counterparty) {
                    r is Err && r->Err_0 == CoreError::PlayerAlreadyTrading(initiator)
                } else {
                    let s = TradeSessionView { initiator, counterparty, initiator_items: Seq::empty(),
                        counterparty_items: Seq::empty(), initiator_accepted: false,
                        counterparty_accepted: false, tick_opened: m.tick };
                    &&& r is Ok
                    &&& r->Ok_0@ == s
                    &&& final(self)@ == (WorldModel { trades: m.trades.insert(initiator, s), ..m })
                }
            }),
    {
        if initiator == counterparty {
            return Err(CoreError::TradeWithSelf);
        }
        if !self.players.contains_key(&initiator) {
            return Err(CoreError::UnknownPlayer(initiator));
        }
        if let Some(s) = self.player_respawn_states.get(&initiator) {
            if s.dead {
                return Err(CoreError::PlayerIsDead(initiator));
            }
        }
        if !self.players.contains_key(&counterparty) {
            return Err(CoreError::UnknownPlayer(counterparty));
        }
        if let Some(s) = self.player_respawn_states.get(&counterparty) {
            if s.dead {
                return Err(CoreError::PlayerIsDead(counterparty));
            }
        }
        if self.active_trades.contains_key(&initiator) || self.active_trades.contains_key(&counterparty) {
            return Err(CoreError::PlayerAlreadyTrading(initiator));
        }
        let session = PlayerTradeSession {
            initiator,
            counterparty,
            initiator_items: Vec::new(),
            counterparty_items: Vec::new(),
            initiator_accepted: false,
            counterparty_accepted: false,
            tick_opened: self.tick,
        };
        let ghost sv = session@;
        let ghost m = self@;
        self.active_trades.insert(initiator, session);
        proof { assert(self@.trades =~= m.trades.insert(initiator, sv)); }
        Ok(self.active_trades.get(&initiator).unwrap())
    }

    /// The key of the session a player takes part in.
    fn trade_key_of(&self, player_id: u64) -> (r: Option<u64>)
        ensures
            r == trade_key(self@.trades, player_id),
            r is Some ==> self@.trades.contains_key(r->0),
    {
        if self.active_trades.contains_key(&player_id) {
            return Some(player_id);
        }
        let keys = map_keys(&self.active_trades);
        let mut i: usize = 0;
        while i < keys.len()
            invariant
                i <= keys@.len(),
                !self@.trades.contains_key(player_id),
                strictly_increasing(keys@),
                forall|j: int| 0 <= j < keys@.len() ==> self@.trades.contains_key(#[trigger] keys@[j]),
                forall|k: u64| #[trigger] self@.trades.contains_key(k) ==> keys@.contains(k),
                forall|j: int| 0 <= j < i ==> self@.trades[#[trigger] keys@[j]].counterparty != player_id,
            decreases keys.len() - i,
        {
            let k = keys[i];
            if self.active_trades.get(&k).unwrap().counterparty == player_id {
                proof {
                    assert(self@.trades[k].counterparty == player_id);
                    assert forall|q: u64| #[trigger] self@.trades.contains_key(q) && self@.trades[q].counterparty == player_id
                        implies k <= q by {
                        let j = choose|j: int| 0 <= j < keys@.len() && keys@[j] == q;
                        if j < i { assert(self@.trades[keys@[j]].counterparty != player_id); }
                        if j > i { assert(keys@[i as int] < keys@[j]); }
                    }
                    assert(least_initiator(self@.trades, player_id, k));
                    let c = choose|c: u64| least_initiator(self@.trades, player_id, c);
                    assert(c <= k && k <= c);
                }
                return Some(k);
            }
            i = i + 1;
        }
        proof {
            assert forall|q: u64| self@.trades.contains_key(q) implies #[trigger] self@.trades[q].counterparty != player_id by {
                let j = choose|j: int| 0 <= j < keys@.len() && keys@[j] == q;
            }
            assert(!exists|q: u64| least_initiator(self@.trades, player_id, q));
        }
        None
    }

    /// The live session a player takes part in, if any.
    pub fn player_trade(&self, player_id: u64) -> (r: Option<&PlayerTradeSession>)
        ensures
            match trade_key(self@.trades, player_id) {
                Some(k) => r is Some && r->0@ == self@.trades[k],
                None => r is None,
            },
    {
        match self.trade_key_of(player_id) {
            Some(k) => self.active_trades.get(&k),
            None => None,
        }
    }

    /// Mutable access to the live session a player takes part in.
    pub fn active_trade_entry_mut(&mut self, player_id: u64) -> (r: Result<&mut PlayerTradeSession, CoreError>)
        ensures
            match trade_key(old(self)@.trades, player_id) {
                None => r is Err && r->Err_0 == CoreError::NoActiveTrade(player_id) && final(self)@ == old(self)@,
                Some(k) => r is Ok && (*r->Ok_0)@ == old(self)@.trades[k]
                    && final(self)@ == (WorldModel { trades: old(self)@.trades.insert(k, (*final(r->Ok_0))@), ..old(self)@ }),
            },
    {
        match self.trade_key_of(player_id) {
            None => Err(CoreError::NoActiveTrade(player_id)),
            Some(k) => {
                let ghost before = self.active_trades@;
                let e = map_entry_mut(&mut self.active_trades, &k);
                proof {
                    if e is Some {
                        assert(before.insert(k, *final(e->0)).map_values(|t: PlayerTradeSession| t@)
                            =~= before.map_values(|t: PlayerTradeSession| t@).insert(k, (*final(e->0))@));
                    }
                }
                match e {
                    Some(session) => Ok(session),
                    None => Err(CoreError::NoActiveTrade(player_id)),
                }
            },
        }
    }

    /// Stores a changed session under its key.
    fn store_trade(&mut self, key: u64, session: PlayerTradeSession)
        ensures
            final(self)@ == (WorldModel { trades: old(self)@.trades.insert(key, session@), ..old(self)@ }),
    {
        let ghost sv = session@;
        self.active_trades.insert(key, session);
        proof { assert(self@.trades =~= old(self)@.trades.insert(key, sv)); }
    }

    /// Stages one container reference into the player's side; acceptances reset. Returns the
    /// new number of staged items of that side.
    pub fn stage_trade_item(&mut self, player_id: u64, reference: TradeItemReference) -> (r: Result<usize, CoreError>)
        ensures
            r is Err ==> final(self)@ == old(self)@,
            match trade_key(old(self)@.trades, player_id) {
                None => r == Err::<usize, CoreError>(CoreError::NoActiveTrade(player_id)),
                Some(k) => {
                    let s = old(self)@.trades[k];
                    let mine = s.initiator == player_id;
                    let items = side_items(s, mine);
                    if items.len() >= MAX_TRADE_ITEMS_PER_SIDE {
                        r == Err::<usize, CoreError>(CoreError::TradeItemLimit(MAX_TRADE_ITEMS_PER_SIDE))
                    } else if items.contains(reference) {
                        r == Err::<usize, CoreError>(CoreError::DuplicateTradeItem)
                    } else {
                        &&& r == Ok::<usize, CoreError>((items.len() + 1) as usize)
                        &&& final(self)@ == (WorldModel { trades: old(self)@.trades.insert(k,
                            with_offer(s, mine, items.push(reference))), ..old(self)@ })
                    }
                },
            },
    {
        let key = match self.trade_key_of(player_id) {
            Some(k) => k,
            None => { return Err(CoreError::NoActiveTrade(player_id)); },
        };
        let mut session = self.active_trades.get(&key).unwrap().duplicate();
        let mine = session.initiator == player_id;
        let len = if mine { session.initiator_items.len() } else { session.counterparty_items.len() };
        if len >= MAX_TRADE_ITEMS_PER_SIDE {
            return Err(CoreError::TradeItemLimit(MAX_TRADE_ITEMS_PER_SIDE));
        }
        let staged = if mine { vec_contains(&session.initiator_items, reference) } else { vec_contains(&session.counterparty_items, reference) };
        if staged {
            return Err(CoreError::DuplicateTradeItem);
        }
        if mine {
            session.initiator_items.push(reference);
        } else {
            session.counterparty_items.push(reference);
        }
        session.initiator_accepted = false;
        session.counterparty_accepted = false;
        self.store_trade(key, session);
        Ok(len + 1)
    }

    /// Removes one staged reference (its first occurrence) from the player's side; acceptances
    /// reset.
    pub fn unstage_trade_item(&mut self, player_id: u64, reference: TradeItemReference) -> (r: Result<(), CoreError>)
        ensures
            r is Err ==> final(self)@ == old(self)@,
            match trade_key(old(self)@.trades, player_id) {
                None => r == Err::<(), CoreError>(CoreError::NoActiveTrade(player_id)),
                Some(k) => {
                    let s = old(self)@.trades[k];
                    let mine = s.initiator == player_id;
                    let items = side_items(s, mine);
                    match items.index_of_first(reference) {
                        None => r == Err::<(), CoreError>(CoreError::UnknownTradeItem),
                        Some(at) => {
                            &&& r is Ok
                            &&& final(self)@ == (WorldModel { trades: old(self)@.trades.insert(k,
                                with_offer(s, mine, items.remove(at))), ..old(self)@ })
                        },
                    }
                },
            },
    {
        let key = match self.trade_key_of(player_id) {
            Some(k) => k,
            None => { return Err(CoreError::NoActiveTrade(player_id)); },
        };
        let mut session = self.active_trades.get(&key).unwrap().duplicate();
        let mine = session.initiator == player_id;
        let found = if mine { vec_position(&session.initiator_items, reference) } else { vec_position(&session.counterparty_items, reference) };
        proof { side_items(session@, mine).index_of_first_ensures(reference); }
        let at = match found {
            Some(i) => i,
            None => { return Err(CoreError::UnknownTradeItem); },
        };
        let ghost s0 = session@;
        if mine {
            session.initiator_items.remove(at);
        } else {
            session.counterparty_items.remove(at);
        }
        session.initiator_accepted = false;
        session.counterparty_accepted = false;
        proof { assert(session@ =~= with_offer(s0, mine, side_items(s0, mine).remove(at as int))); }
        self.store_trade(key, session);
        Ok(())
    }

    /// Records the player's acceptance; true once both sides have accepted.
    pub fn accept_player_trade(&mut self, player_id: u64) -> (r: Result<bool, CoreError>)
        ensures
            match trade_key(old(self)@.trades, player_id) {
                None => r == Err::<bool, CoreError>(CoreError::NoActiveTrade(player_id)) && final(self)@ == old(self)@,
                Some(k) => {
                    let t = accepted_by(old(self)@.trades[k], player_id);
                    &&& r == Ok::<bool, CoreError>(t.initiator_accepted && t.counterparty_accepted)
                    &&& final(self)@ == (WorldModel { trades: old(self)@.trades.insert(k, t), ..old(self)@ })
                },
            },
    {
        let key = match self.trade_key_of(player_id) {
            Some(k) => k,
            None => { return Err(CoreError::NoActiveTrade(player_id)); },
        };
        let mut session = self.active_trades.get(&key).unwrap().duplicate();
        if session.initiator == player_id {
            session.initiator_accepted = true;
        } else {
            session.counterparty_accepted = true;
        }
        let both = session.initiator_accepted && session.counterparty_accepted;
        self.store_trade(key, session);
        Ok(both)
    }

    /// Cancels the trade a player takes part in and returns the other participant.
    pub fn cancel_player_trade(&mut self, player_id: u64) -> (r: Option<u64>)
        ensures
            final(self)@ == cancelled(old(self)@, player_id),
            match trade_key(old(self)@.trades, player_id) {
                None => r is None && final(self)@ == old(self)@,
                Some(k) => {
                    let s = old(self)@.trades[k];
                    let (gone, other) = if k == player_id && s.initiator == player_id {
                        (player_id, s.counterparty)
                    } else if k == player_id {
                        (s.initiator, player_id)
                    } else {
                        (k, player_id)
                    };
                    &&& r == Some(other)
                    &&& final(self)@ == (WorldModel { trades: old(self)@.trades.remove(gone), ..old(self)@ })
                },
            },
    {
        let key = match self.trade_key_of(player_id) {
            Some(k) => k,
            None => { return None; },
        };
        let session = self.active_trades.get(&key).unwrap();
        let (remove_key, other) = if key == player_id {
            if session.initiator == player_id { (player_id, session.counterparty) } else { (session.initiator, player_id) }
        } else {
            (key, player_id)
        };
        self.active_trades.remove(&remove_key);
        proof { assert(self@.trades =~= old(self)@.trades.remove(remove_key)); }
        Some(other)
    }

    /// Executes an accepted trade as one atomic transition: every staged reference must still
    /// resolve, the offered items leave both inventories, and each side receives the other's items
    /// in its first container with room. Any failure leaves both inventories and the session as
    /// they were; success closes the trade for both participants.
    pub fn execute_player_trade(&mut self, player_id: u64) -> (r: Result<PlayerTradeExecution, CoreError>)
        ensures
            r is Err ==> final(self)@ == old(self)@,
            match trade_key(old(self)@.trades, player_id) {
                None => r == Err::<PlayerTradeExecution, CoreError>(CoreError::NoActiveTrade(player_id)),
                Some(k) => {
                    let m = old(self)@;
                    let s = m.trades[k];
                    let a = s.initiator;
                    let b = s.counterparty;
                    if !(s.initiator_accepted && s.counterparty_accepted) {
                        r == Err::<PlayerTradeExecution, CoreError>(CoreError::NoActiveTrade(player_id))
                    } else {
                        match trade_result(tables_of(m, a), tables_of(m, b), s) {
                            Err(f) => r is Err && reports(r->Err_0, f),
                            Ok((fa, fb, gave_a, gave_b)) => {
                                &&& r is Ok
                                &&& r->Ok_0.initiator == a
                                &&& r->Ok_0.counterparty == b
                                &&& item_views(r->Ok_0.initiator_gave@) == gave_a
                                &&& item_views(r->Ok_0.counterparty_gave@) == gave_b
                                &&& final(self)@ == (WorldModel {
                                    containers: put_back(put_back(m.containers, a, fa), b, fb),
                                    trades: m.trades.remove(a).remove(b),
                                    revision: bumped(m.revision),
                                    ..m
                                })
                            },
                        }
                    }
                },
            },
    {
        let key = match self.trade_key_of(player_id) {
            Some(k) => k,
            None => { return Err(CoreError::NoActiveTrade(player_id)); },
        };
        let session = self.active_trades.get(&key).unwrap().duplicate();
        if !(session.initiator_accepted && session.counterparty_accepted) {
            return Err(CoreError::NoActiveTrade(player_id));
        }
        let a = session.initiator;
        let b = session.counterparty;
        let mut ca = self.containers_copy(a);
        let mut cb = self.containers_copy(b);
        let (gave_a, gave_b) = match run_trade(&mut ca, &mut cb, &session) {
            Ok(pair) => pair,
            Err(e) => { return Err(e); },
        };
        self.put_back_containers(a, ca);
        self.put_back_containers(b, cb);
        let ghost m1 = self@;
        self.active_trades.remove(&a);
        self.active_trades.remove(&b);
        proof { assert(self@.trades =~= m1.trades.remove(a).remove(b)); }
        self.mark_changed();
        Ok(PlayerTradeExecution { initiator: a, counterparty: b, initiator_gave: gave_a, counterparty_gave: gave_b })
    }

    /// A working copy of a player's windows, empty when the player has none.
    fn containers_copy(&self, p: u64) -> (r: PlayerContainers)
        ensures
            r@ == tables_of(self@, p),
    {
        match self.player_containers.get(&p) {
            Some(c) => c.duplicate(),
            None => PlayerContainers::new(),
        }
    }

    /// Writes a working copy back where the player has a container table.
    fn put_back_containers(&mut self, p: u64, cs: PlayerContainers)
        ensures
            final(self)@ == (WorldModel { containers: put_back(old(self)@.containers, p, cs@), ..old(self)@ }),
    {
        if self.player_containers.contains_key(&p) {
            let ghost cv = cs@;
            self.player_containers.insert(p, cs);
            proof { assert(self@.containers =~= old(self)@.containers.insert(p, cv)); }
        }
    }
}

/// True when `v` holds `x`.
fn vec_contains(v: &Vec<TradeItemReference>, x: TradeItemReference) -> (r: bool)
    ensures
        r == v@.contains(x),
{
    let mut i: usize = 0;
    while i < v.len()
        invariant
            i <= v@.len(),
            forall|j: int| 0 <= j < i ==> v@[j] != x,
        decreases v.len() - i,
    {
        if v[i] == x {
            proof { assert(v@[i as int] == x); }
            return true;
        }
        i = i + 1;
    }
    false
}

/// The first position of `x` in `v`.
fn vec_position(v: &Vec<TradeItemReference>, x: TradeItemReference) -> (r: Option<usize>)
    ensures
        match v@.index_of_first(x) {
            Some(i) => r == Some(i as usize),
            None => r is None,
        },
{
    proof { v@.index_of_first_ensures(x); }
    let mut i: usize = 0;
    while i < v.len()
        invariant
            i <= v@.len(),
            forall|j: int| 0 <= j < i ==> v@[j] != x,
            match v@.index_of_first(x) {
                Some(f) => 0 <= f < v@.len() && v@[f] == x && forall|j: int| 0 <= j < f ==> v@[j] != x,
                None => !v@.contains(x),
            },
        decreases v.len() - i,
    {
        if v[i] == x {
            proof {
                let f = v@.index_of_first(x)->0;
                assert(v@[i as int] == x);
                assert(f <= i);
                if f < i { assert(v@[f] != x); }
            }
            return Some(i);
        }
        i = i + 1;
    }
    proof {
        if v@.index_of_first(x) is Some {
            let f = v@.index_of_first(x)->0;
            assert(v@[f] != x);
        }
    }
    None
}


/// The world after `open_player_trade` opens a session between `a` and `b`.
pub open spec fn opened(m: WorldModel, a: u64, b: u64) -> WorldModel {
    WorldModel { trades: m.trades.insert(a, TradeSessionView { initiator: a, counterparty: b,
        initiator_items: Seq::empty(), counterparty_items: Seq::empty(), initiator_accepted: false,
        counterparty_accepted: false, tick_opened: m.tick }), ..m }
}

/// The world after `cancel_player_trade` by player `p`.
pub open spec fn cancelled(m: WorldModel, p: u64) -> WorldModel {
    match trade_key(m.trades, p) {
        None => m,
        Some(k) => {
            let s = m.trades[k];
            let gone = if k == p && s.initiator == p { p } else if k == p { s.initiator } else { k };
            WorldModel { trades: m.trades.remove(gone), ..m }
        },
    }
}

/// Cancelling a freshly opened trade by its initiator restores the world exactly.
pub proof fn law_initiator_cancel_undoes_open(m: WorldModel, a: u64, b: u64)
    requires
        !m.trades.contains_key(a),
    ensures
        cancelled(opened(m, a, b), a) == m,
{
    let w = opened(m, a, b);
    assert(trade_key(w.trades, a) == Some(a));
    assert(w.trades.remove(a) =~= m.trades);
}
} // verus!
