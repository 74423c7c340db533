use vstd::prelude::*;
use crate::driver::{MAX_CLIENTS, build_report, spec_report};
use crate::gamepad::{XinputGamepad, spec_decode, le_u32, lemma_decode_fields};

verus! {

/// The UDP port the server listens on.
pub const SERVER_PORT: u16 = 40405;

/// A client that sent nothing for longer than this many milliseconds is
/// disconnected.
pub const INACTIVITY_TIMEOUT_MS: u64 = 3000;

/// Period, in milliseconds, of the check for inactive clients.
pub const INACTIVITY_CHECK_PERIOD_MS: u64 = 500;

/// Most entries the list of connected clients holds.
pub const MAX_CONNECTED_CLIENTS: usize = 4;

/// The address a datagram came from, with every part that tells two
/// addresses apart.
#[derive(Debug, Copy, Clone, PartialEq, Eq, Structural)]
pub enum PeerAddr {
    V4 { ipv4: u32, port: u16 },
    V6 { ipv6: u128, port: u16, flowinfo: u32, scope_id: u32 },
}

/// One of the four controller slots: whether a client holds it, the
/// client's number (the slot's index plus one), the address it plays
/// from, when it last sent a datagram (in milliseconds of a monotonic
/// clock) and the sequence number of the last state it sent.
#[derive(Debug, Copy, Clone, PartialEq, Eq, Structural)]
pub struct ClientSlot {
    pub occupied: bool,
    pub client_number: Option<usize>,
    pub addr: Option<PeerAddr>,
    pub last_packet_time: Option<u64>,
    pub last_sequence: u32,
}

/// An entry of the list of connected clients shown to the user: the
/// client's IP address as text and its slot number (1 to 4).
#[derive(Debug, Clone)]
pub struct ClientInfo {
    pub ip: String,
    pub slot: usize,
}

/// The address the server is reached at, as shown to the user.
#[derive(Debug, Clone)]
pub struct ServerInfo {
    pub ip: String,
    pub port: String,
}

/// The state the server keeps: the slot table and the list of connected
/// clients.
pub struct ServerState {
    pub slots: [ClientSlot; 4],
    pub clients: Vec<ClientInfo>,
}

/// The mathematical model of the server state.
#[verifier::ext_equal]
pub struct ServerModel {
    pub slots: Seq<ClientSlot>,
    pub clients: Seq<ClientInfo>,
}

impl View for ServerState {
    type V = ServerModel;

    open spec fn view(&self) -> ServerModel {
        ServerModel { slots: self.slots@, clients: self.clients@ }
    }
}

/// A slot that no client holds.
pub open spec fn free_slot() -> ClientSlot {
    ClientSlot {
        occupied: false,
        client_number: None,
        addr: None,
        last_packet_time: None,
        last_sequence: 0,
    }
}

/// Slot `i` is either held, with client number `i + 1`, or entirely free.
pub open spec fn slot_wf(s: ClientSlot, i: int) -> bool {
    if s.occupied {
        s.client_number == Some((i + 1) as usize)
    } else {
        s == free_slot()
    }
}

/// Slot `i` is held exactly when it carries a client number, and that
/// number is `i + 1`.
pub open spec fn slot_numbered(s: ClientSlot, i: int) -> bool {
    &&& s.occupied == (s.client_number is Some)
    &&& s.client_number matches Some(c) ==> c == i + 1
}

/// Every slot of the table is numbered as `slot_numbered` says.
pub open spec fn slots_numbered(slots: Seq<ClientSlot>) -> bool {
    forall|i: int| 0 <= i < MAX_CLIENTS ==> #[trigger] slot_numbered(slots[i], i)
}

impl ServerModel {
    /// Every slot is well formed and the client list holds at most four entries.
    pub open spec fn wf(self) -> bool {
        &&& self.slots.len() == MAX_CLIENTS
        &&& forall|i: int| 0 <= i < MAX_CLIENTS ==> #[trigger] slot_wf(self.slots[i], i)
        &&& self.clients.len() <= MAX_CONNECTED_CLIENTS
    }
}

/// Slot `s` (index `i`) once a client has taken it: held, numbered
/// `i + 1`, with its sequence number reset.
pub open spec fn acquired_slot(s: ClientSlot, i: int) -> ClientSlot {
    ClientSlot {
        occupied: true,
        client_number: Some((i + 1) as usize),
        addr: s.addr,
        last_packet_time: s.last_packet_time,
        last_sequence: 0,
    }
}

/// `i` is the lowest index of a free slot.
pub open spec fn is_first_free(slots: Seq<ClientSlot>, i: int) -> bool {
    &&& 0 <= i < MAX_CLIENTS
    &&& !slots[i].occupied
    &&& forall|j: int| 0 <= j < i ==> #[trigger] slots[j].occupied
}

/// Some slot is free.
pub open spec fn has_free_slot(slots: Seq<ClientSlot>) -> bool {
    exists|i: int| 0 <= i < MAX_CLIENTS && !#[trigger] slots[i].occupied
}

/// The client list once entry `index` is removed; an index past its end
/// leaves it as it is.
pub open spec fn spec_disconnect(clients: Seq<ClientInfo>, index: int) -> Seq<ClientInfo> {
    if 0 <= index < clients.len() {
        clients.remove(index)
    } else {
        clients
    }
}

/// The client list once the client at `ip` in slot `slot_index` is added;
/// a full list stays as it is.
pub open spec fn spec_add_client(clients: Seq<ClientInfo>, ip: String, slot_index: int) -> Seq<ClientInfo> {
    if clients.len() >= MAX_CONNECTED_CLIENTS {
        clients
    } else {
        clients.push(ClientInfo { ip, slot: (slot_index + 1) as usize })
    }
}

/// The state once the client numbered `client_id` is released: entry
/// `client_id - 1` of the client list is removed and slot `client_id - 1`,
/// where there is one, is freed.
pub open spec fn spec_release(m: ServerModel, client_id: int) -> ServerModel {
    ServerModel {
        slots: if 0 <= client_id - 1 < MAX_CLIENTS {
            m.slots.update(client_id - 1, free_slot())
        } else {
            m.slots
        },
        clients: spec_disconnect(m.clients, client_id - 1),
    }
}

/// The state once the clients `ids` are released, in order.
pub open spec fn spec_release_all(m: ServerModel, ids: Seq<usize>) -> ServerModel
    decreases ids.len(),
{
    if ids.len() == 0 {
        m
    } else {
        spec_release(spec_release_all(m, ids.drop_last()), ids.last() as int)
    }
}

/// The client numbers (index plus one), in increasing order, of the slots
/// among the first `n` that `sel` selects.
pub open spec fn slot_ids(slots: Seq<ClientSlot>, n: int, sel: spec_fn(ClientSlot) -> bool) -> Seq<usize>
    decreases n,
{
    if n <= 0 {
        Seq::empty()
    } else if sel(slots[n - 1]) {
        slot_ids(slots, n - 1, sel).push(n as usize)
    } else {
        slot_ids(slots, n - 1, sel)
    }
}

/// Selects the slots a client holds.
pub open spec fn held() -> spec_fn(ClientSlot) -> bool {
    |s: ClientSlot| s.occupied
}

/// Selects the held slots whose client sent nothing for longer than the
/// timeout at time `now`.
pub open spec fn expired_at(now: u64) -> spec_fn(ClientSlot) -> bool {
    |s: ClientSlot|
        s.occupied && s.last_packet_time is Some && now > s.last_packet_time->0 + INACTIVITY_TIMEOUT_MS
}

/// The client numbers selected among the first `n` slots lie between 1 and `n`.
pub proof fn lemma_slot_ids_range(slots: Seq<ClientSlot>, n: int, sel: spec_fn(ClientSlot) -> bool)
    requires
        n <= MAX_CLIENTS,
    ensures
        forall|j: int|
            0 <= j < slot_ids(slots, n, sel).len() ==> 1 <= #[trigger] slot_ids(slots, n, sel)[j] <= n,
    decreases n,
{
    if n > 0 {
        lemma_slot_ids_range(slots, n - 1, sel);
        let prev = slot_ids(slots, n - 1, sel);
        let cur = slot_ids(slots, n, sel);
        assert forall|j: int| 0 <= j < cur.len() implies 1 <= #[trigger] cur[j] <= n by {
            if j < prev.len() {
                assert(cur[j] == prev[j]);
            }
        }
    }
}

/// Releasing the selected slots, in order, frees exactly those slots and
/// leaves the others as they were.
pub proof fn lemma_release_selected(m: ServerModel, n: int, sel: spec_fn(ClientSlot) -> bool)
    requires
        m.slots.len() == MAX_CLIENTS,
        0 <= n <= MAX_CLIENTS,
    ensures
        spec_release_all(m, slot_ids(m.slots, n, sel)).slots.len() == MAX_CLIENTS,
        forall|j: int|
            0 <= j < MAX_CLIENTS ==> #[trigger] spec_release_all(m, slot_ids(m.slots, n, sel)).slots[j]
                == if j < n && sel(m.slots[j]) {
                free_slot()
            } else {
                m.slots[j]
            },
    decreases n,
{
    if n > 0 {
        lemma_release_selected(m, n - 1, sel);
        let prev = slot_ids(m.slots, n - 1, sel);
        if sel(m.slots[n - 1]) {
            assert(prev.push(n as usize).drop_last() =~= prev);
        }
    }
}

/// A well-formed state numbers its slots as `slot_numbered` says.
pub proof fn lemma_wf_numbered(m: ServerModel)
    requires
        m.wf(),
    ensures
        slots_numbered(m.slots),
{
    assert forall|i: int| 0 <= i < MAX_CLIENTS implies #[trigger] slot_numbered(m.slots[i], i) by {
        assert(slot_wf(m.slots[i], i));
    }
}

/// Adding a client to a list of at most four entries leaves at most four,
/// and a full list stays as it is.
pub proof fn lemma_add_client_bounded(clients: Seq<ClientInfo>, ip: String, slot_index: int)
    requires
        clients.len() <= MAX_CONNECTED_CLIENTS,
    ensures
        spec_add_client(clients, ip, slot_index).len() <= MAX_CONNECTED_CLIENTS,
        clients.len() == MAX_CONNECTED_CLIENTS ==> spec_add_client(clients, ip, slot_index) == clients,
{
}

/// Replacing one slot of a well-formed table by a slot well formed at that
/// index keeps every slot well formed.
pub proof fn lemma_update_slot_wf(m: ServerModel, idx: int, s: ClientSlot)
    requires
        m.wf(),
        0 <= idx < MAX_CLIENTS,
        slot_wf(s, idx),
    ensures
        forall|i: int| 0 <= i < MAX_CLIENTS ==> #[trigger] slot_wf(m.slots.update(idx, s)[i], i),
{
    assert forall|i: int| 0 <= i < MAX_CLIENTS implies #[trigger] slot_wf(m.slots.update(idx, s)[i], i) by {
        assert(slot_wf(m.slots[i], i));
    }
}

/// Releasing clients keeps the state well formed.
pub proof fn lemma_release_all_wf(m: ServerModel, ids: Seq<usize>)
    requires
        m.wf(),
    ensures
        spec_release_all(m, ids).wf(),
    decreases ids.len(),
{
    if ids.len() > 0 {
        lemma_release_all_wf(m, ids.drop_last());
        let p = spec_release_all(m, ids.drop_last());
        let id = ids.last() as int;
        if 0 <= id - 1 < MAX_CLIENTS {
            lemma_update_slot_wf(p, id - 1, free_slot());
        }
    }
}

impl ServerState {
    /// The state at start-up: every slot free, no client connected.
    pub fn new() -> (s: ServerState)
        ensures
            s@.wf(),
            forall|i: int| 0 <= i < MAX_CLIENTS ==> #[trigger] s@.slots[i] == free_slot(),
            s@.clients.len() == 0,
    {
        let free = ClientSlot {
            occupied: false,
            client_number: None,
            addr: None,
            last_packet_time: None,
            last_sequence: 0,
        };
        let s = ServerState { slots: [free, free, free, free], clients: Vec::new() };
        assert forall|i: int| 0 <= i < MAX_CLIENTS implies #[trigger] slot_wf(s@.slots[i], i) by {
        }
        s
    }
}

impl ServerInfo {
    /// What is shown before the server has started.
    pub fn initial() -> (info: ServerInfo)
        ensures
            info.ip@ == "40405"@,
            info.port@ == "0.0.0.0"@,
    {
        ServerInfo { ip: String::from_str("40405"), port: String::from_str("0.0.0.0") }
    }

    /// What is shown once the server listens at `ip` on its port.
    pub fn listening(ip: String) -> (info: ServerInfo)
        ensures
            info.ip == ip,
            info.port@ == "40405"@,
    {
        ServerInfo { ip, port: String::from_str("40405") }
    }
}

/// The lowest index, from `k` on, of a free slot, or 4 when there is none.
pub open spec fn first_free(slots: Seq<ClientSlot>, k: int) -> int
    decreases MAX_CLIENTS - k,
{
    if k >= MAX_CLIENTS {
        MAX_CLIENTS as int
    } else if !slots[k].occupied {
        k
    } else {
        first_free(slots, k + 1)
    }
}

/// The number of free slots from index `k` on.
pub open spec fn free_count(slots: Seq<ClientSlot>, k: int) -> nat
    decreases MAX_CLIENTS - k,
{
    if k >= MAX_CLIENTS {
        0
    } else {
        (if slots[k].occupied { 0nat } else { 1nat }) + free_count(slots, k + 1)
    }
}

/// One slot acquisition on the table `slots`: the new table and the index
/// of the slot taken, if any.
pub open spec fn acquire_spec(slots: Seq<ClientSlot>) -> (Seq<ClientSlot>, Option<usize>) {
    let i = first_free(slots, 0);
    if i < MAX_CLIENTS {
        (slots.update(i, acquired_slot(slots[i], i)), Some(i as usize))
    } else {
        (slots, None)
    }
}

/// `n` slot acquisitions in a row, with no release between them: the final
/// table and the indices of the slots taken, in order.
pub open spec fn acquire_many(slots: Seq<ClientSlot>, n: nat) -> (Seq<ClientSlot>, Seq<usize>)
    decreases n,
{
    if n == 0 {
        (slots, Seq::empty())
    } else {
        let (next, got) = acquire_spec(slots);
        let (last, rest) = acquire_many(next, (n - 1) as nat);
        (last, match got {
            Some(i) => seq![i] + rest,
            None => rest,
        })
    }
}

proof fn lemma_first_free_bounds(slots: Seq<ClientSlot>, k: int)
    requires
        0 <= k <= MAX_CLIENTS,
        slots.len() == MAX_CLIENTS,
    ensures
        k <= first_free(slots, k) <= MAX_CLIENTS,
        forall|j: int| k <= j < first_free(slots, k) ==> #[trigger] slots[j].occupied,
        first_free(slots, k) < MAX_CLIENTS ==> !slots[first_free(slots, k)].occupied,
        first_free(slots, k) == MAX_CLIENTS <==> free_count(slots, k) == 0,
    decreases MAX_CLIENTS - k,
{
    if k < MAX_CLIENTS {
        lemma_first_free_bounds(slots, k + 1);
    }
}

/// The lowest free slot the contracts speak of is `first_free(slots, 0)`.
proof fn lemma_first_free_matches(slots: Seq<ClientSlot>)
    requires
        slots.len() == MAX_CLIENTS,
    ensures
        forall|i: int| #[trigger] is_first_free(slots, i) ==> first_free(slots, 0) == i,
        !has_free_slot(slots) ==> first_free(slots, 0) == MAX_CLIENTS,
{
    lemma_first_free_bounds(slots, 0);
    let f = first_free(slots, 0);
    assert forall|i: int| #[trigger] is_first_free(slots, i) implies f == i by {
        if f < i {
            assert(slots[f].occupied);
        } else if f > i {
            assert(slots[i].occupied);
        }
    }
    if !has_free_slot(slots) && f < MAX_CLIENTS {
        assert(!slots[f].occupied);
    }
}

proof fn lemma_free_count_take(slots: Seq<ClientSlot>, i: int, s: ClientSlot, k: int)
    requires
        slots.len() == MAX_CLIENTS,
        0 <= k <= MAX_CLIENTS,
        0 <= i < MAX_CLIENTS,
        !slots[i].occupied,
        s.occupied,
    ensures
        k <= i ==> free_count(slots.update(i, s), k) + 1 == free_count(slots, k),
        k > i ==> free_count(slots.update(i, s), k) == free_count(slots, k),
    decreases MAX_CLIENTS - k,
{
    if k < MAX_CLIENTS {
        lemma_free_count_take(slots, i, s, k + 1);
    }
}

proof fn lemma_first_free_from(slots: Seq<ClientSlot>, k: int, j: int)
    requires
        slots.len() == MAX_CLIENTS,
        0 <= k <= j <= MAX_CLIENTS,
        forall|m: int| k <= m < j ==> #[trigger] slots[m].occupied,
    ensures
        first_free(slots, k) == first_free(slots, j),
    decreases j - k,
{
    if k < j {
        lemma_first_free_from(slots, k + 1, j);
    }
}

/// Successive acquisitions with no release between them never share a
/// slot: the slots they take are distinct (in increasing order), each was
/// free before the first call, and as many calls succeed as there were
/// free slots, or calls if fewer.
pub proof fn lemma_acquisitions_distinct(slots: Seq<ClientSlot>, n: nat)
    requires
        slots.len() == MAX_CLIENTS,
    ensures
        acquire_many(slots, n).1.len() == if n < free_count(slots, 0) { n } else { free_count(slots, 0) },
        forall|a: int, b: int|
            0 <= a < b < acquire_many(slots, n).1.len() ==> #[trigger] acquire_many(slots, n).1[a]
                < #[trigger] acquire_many(slots, n).1[b],
        forall|a: int|
            0 <= a < acquire_many(slots, n).1.len() ==> {
                &&& #[trigger] acquire_many(slots, n).1[a] < MAX_CLIENTS
                &&& !slots[acquire_many(slots, n).1[a] as int].occupied
            },
    decreases n,
{
    if n > 0 {
        lemma_first_free_bounds(slots, 0);
        let i = first_free(slots, 0);
        let (next, got) = acquire_spec(slots);
        lemma_acquisitions_distinct(next, (n - 1) as nat);
        let rest = acquire_many(next, (n - 1) as nat).1;
        if i < MAX_CLIENTS {
            let s = acquired_slot(slots[i], i);
            lemma_free_count_take(slots, i, s, 0);
            let all = seq![i as usize] + rest;
            assert(acquire_many(slots, n).1 == all);
            assert forall|a: int| 0 <= a < rest.len() implies rest[a] > i && !slots[rest[a] as int].occupied by {
                let r = rest[a] as int;
                assert(!next[r].occupied);
                if r < i {
                    assert(slots[r].occupied);
                }
            }
            assert forall|a: int, b: int| 0 <= a < b < all.len() implies #[trigger] all[a] < #[trigger] all[b] by {
                if a > 0 {
                    assert(all[a] == rest[a - 1]);
                }
                assert(all[b] == rest[b - 1]);
            }
            assert forall|a: int| 0 <= a < all.len() implies #[trigger] all[a] < MAX_CLIENTS && !slots[all[a] as int].occupied by {
                if a > 0 {
                    assert(all[a] == rest[a - 1]);
                }
            }
        } else {
            assert(next == slots);
        }
    }
}

/// Takes the lowest free slot for a new client and returns its index and
/// the client's number (index plus one), or `None` when every slot is held.
pub fn acquire_client_slot(slots: &mut [ClientSlot; 4]) -> (r: Option<(usize, usize)>)
    ensures
        r is None <==> !has_free_slot(old(slots)@),
        r is None ==> final(slots)@ == old(slots)@,
        r matches Some((i, id)) ==> {
            &&& is_first_free(old(slots)@, i as int)
            &&& id == i + 1
            &&& final(slots)@ == old(slots)@.update(i as int, acquired_slot(old(slots)@[i as int], i as int))
        },
        (forall|j: int| 0 <= j < MAX_CLIENTS ==> #[trigger] slot_wf(old(slots)@[j], j)) ==> forall|j: int|
            0 <= j < MAX_CLIENTS ==> #[trigger] slot_wf(final(slots)@[j], j),
        slots_numbered(old(slots)@) ==> slots_numbered(final(slots)@),
        final(slots)@ == acquire_spec(old(slots)@).0,
        (match r {
            Some((i, _)) => Some(i),
            None => None,
        }) == acquire_spec(old(slots)@).1,
{
    proof {
        lemma_first_free_matches(slots@);
    }
    let ghost orig = slots@;
    let mut i: usize = 0;
    while i < MAX_CLIENTS
        invariant
            i <= MAX_CLIENTS,
            slots@ == orig,
            orig == old(slots)@,
            forall|j: int| 0 <= j < i ==> #[trigger] orig[j].occupied,
        decreases MAX_CLIENTS - i,
    {
        if !slots[i].occupied {
            let mut s = slots[i];
            s.occupied = true;
            s.client_number = Some(i + 1);
            s.last_sequence = 0;
            slots[i] = s;
            assert(!orig[i as int].occupied);
            assert(slots@ =~= orig.update(i as int, acquired_slot(orig[i as int], i as int)));
            proof {
                lemma_first_free_matches(orig);
                assert(is_first_free(orig, i as int));
            }
            return Some((i, i + 1));
        }
        i = i + 1;
    }
    None
}

/// Removes entry `index` from the list of connected clients, if there is one.
pub fn disconnect_client(clients: &mut Vec<ClientInfo>, index: usize)
    ensures
        final(clients)@ == spec_disconnect(old(clients)@, index as int),
        index < old(clients)@.len() ==> final(clients)@ == old(clients)@.remove(index as int),
        index >= old(clients)@.len() ==> final(clients)@ == old(clients)@,
{
    if index < clients.len() {
        clients.remove(index);
    }
}

/// Adds the client at `ip` in slot `slot_index` to the list of connected
/// clients and returns the new entry, unless the list is full.
pub fn add_connected_client(clients: &mut Vec<ClientInfo>, ip: String, slot_index: usize) -> (r: Option<ClientInfo>)
    requires
        old(clients)@.len() < MAX_CONNECTED_CLIENTS ==> slot_index < usize::MAX,
    ensures
        final(clients)@ == spec_add_client(old(clients)@, ip, slot_index as int),
        old(clients)@.len() <= MAX_CONNECTED_CLIENTS ==> final(clients)@.len() <= MAX_CONNECTED_CLIENTS,
        old(clients)@.len() >= MAX_CONNECTED_CLIENTS ==> r is None && final(clients)@ == old(clients)@,
        old(clients)@.len() < MAX_CONNECTED_CLIENTS ==> r == Some(ClientInfo { ip, slot: (slot_index + 1) as usize }),
        old(clients)@.len() < MAX_CONNECTED_CLIENTS ==> {
            &&& final(clients)@.len() == old(clients)@.len() + 1
            &&& final(clients)@.last() == ClientInfo { ip, slot: (slot_index + 1) as usize }
            &&& final(clients)@.drop_last() == old(clients)@
        },
{
    if clients.len() >= MAX_CONNECTED_CLIENTS {
        return None;
    }
    let info = ClientInfo { ip: ip.clone(), slot: slot_index + 1 };
    clients.push(ClientInfo { ip, slot: slot_index + 1 });
    Some(info)
}

/// Releases the client numbered `client_id`: removes entry `client_id - 1`
/// of the client list and frees its slot. Returns the controller number the
/// application then unplugs from the bus.
pub fn release_client_slot(state: &mut ServerState, client_id: usize) -> (serial: u32)
    requires
        client_id >= 1,
    ensures
        final(state)@ == spec_release(old(state)@, client_id as int),
        client_id - 1 < old(state)@.clients.len() ==> final(state)@.clients == old(state)@.clients.remove(
            client_id - 1,
        ),
        client_id - 1 >= old(state)@.clients.len() ==> final(state)@.clients == old(state)@.clients,
        client_id - 1 < MAX_CLIENTS ==> final(state)@.slots == old(state)@.slots.update(
            client_id - 1,
            ClientSlot {
                occupied: false,
                client_number: None,
                addr: None,
                last_packet_time: None,
                last_sequence: 0,
            },
        ),
        client_id - 1 >= MAX_CLIENTS ==> final(state)@.slots == old(state)@.slots,
        serial == client_id as u32,
        slots_numbered(old(state)@.slots) ==> slots_numbered(final(state)@.slots),
        old(state)@.wf() ==> final(state)@.wf(),
{
    disconnect_client(&mut state.clients, client_id - 1);
    let slot_index = client_id - 1;
    if slot_index < MAX_CLIENTS {
        state.slots[slot_index] = ClientSlot {
            occupied: false,
            client_number: None,
            addr: None,
            last_packet_time: None,
            last_sequence: 0,
        };
    }
    proof {
        if old(state)@.wf() && slot_index < MAX_CLIENTS {
            lemma_update_slot_wf(old(state)@, slot_index as int, free_slot());
        }
    }
    client_id as u32
}


/// Releases every client, lowest slot first, and returns the controller
/// numbers the application then unplugs, in that order.
pub fn cancel_all_clients(state: &mut ServerState) -> (unplugged: Vec<u32>)
    ensures
        final(state)@ == spec_release_all(old(state)@, slot_ids(old(state)@.slots, 4, held())),
        unplugged@ == slot_ids(old(state)@.slots, 4, held()).map_values(|id: usize| id as u32),
        forall|j: int|
            0 <= j < MAX_CLIENTS ==> #[trigger] final(state)@.slots[j] == if old(state)@.slots[j].occupied {
                free_slot()
            } else {
                old(state)@.slots[j]
            },
        forall|j: int| 0 <= j < MAX_CLIENTS ==> !(#[trigger] final(state)@.slots[j]).occupied,
        slots_numbered(old(state)@.slots) ==> slots_numbered(final(state)@.slots),
        old(state)@.wf() ==> final(state)@.wf(),
{
    let ghost orig = state@;
    let mut unplugged: Vec<u32> = Vec::new();
    let mut i: usize = 0;
    while i < MAX_CLIENTS
        invariant
            i <= MAX_CLIENTS,
            orig == old(state)@,
            state@ == spec_release_all(orig, slot_ids(orig.slots, i as int, held())),
            forall|j: int| i <= j < MAX_CLIENTS ==> #[trigger] state@.slots[j] == orig.slots[j],
            unplugged@ == slot_ids(orig.slots, i as int, held()).map_values(|id: usize| id as u32),
        decreases MAX_CLIENTS - i,
    {
        let ghost prev_ids = slot_ids(orig.slots, i as int, held());
        assert(state@.slots[i as int] == orig.slots[i as int]);
        if state.slots[i].occupied {
            assert(orig.slots[i as int].occupied);
            let serial = release_client_slot(state, i + 1);
            unplugged.push(serial);
            assert(prev_ids.push((i + 1) as usize).drop_last() =~= prev_ids);
            assert(prev_ids.push((i + 1) as usize).map_values(|id: usize| id as u32)
                =~= prev_ids.map_values(|id: usize| id as u32).push(serial));
        }
        i = i + 1;
    }
    proof {
        lemma_release_selected(orig, 4, held());
        if orig.wf() {
            lemma_release_all_wf(orig, slot_ids(orig.slots, 4, held()));
        }
    }
    unplugged
}

/// Releases, lowest slot first, every client that sent nothing for longer
/// than the timeout at time `now_ms`, and returns the controller numbers
/// the application then unplugs, in that order.
pub fn disconnect_inactive_clients(state: &mut ServerState, now_ms: u64) -> (unplugged: Vec<u32>)
    ensures
        final(state)@ == spec_release_all(old(state)@, slot_ids(old(state)@.slots, 4, expired_at(now_ms))),
        unplugged@ == slot_ids(old(state)@.slots, 4, expired_at(now_ms)).map_values(|id: usize| id as u32),
        forall|j: int|
            0 <= j < MAX_CLIENTS ==> #[trigger] final(state)@.slots[j] == if expired_at(now_ms)(old(state)@.slots[j]) {
                free_slot()
            } else {
                old(state)@.slots[j]
            },
        forall|j: int| 0 <= j < MAX_CLIENTS ==> !expired_at(now_ms)(#[trigger] final(state)@.slots[j]),
        forall|j: int|
            0 <= j < MAX_CLIENTS && old(state)@.slots[j].occupied && old(state)@.slots[j].last_packet_time
                is Some && now_ms > old(state)@.slots[j].last_packet_time->0 + 3000 ==> !(
            #[trigger] final(state)@.slots[j]).occupied,
        forall|j: int|
            0 <= j < MAX_CLIENTS && (old(state)@.slots[j].last_packet_time is None || now_ms
                <= old(state)@.slots[j].last_packet_time->0 + 3000) ==> #[trigger] final(state)@.slots[j]
                == old(state)@.slots[j],
        slots_numbered(old(state)@.slots) ==> slots_numbered(final(state)@.slots),
        old(state)@.wf() ==> final(state)@.wf(),
{
    let ghost orig = state@;
    let ghost sel = expired_at(now_ms);
    let mut to_remove: Vec<usize> = Vec::new();
    let mut i: usize = 0;
    while i < MAX_CLIENTS
        invariant
            i <= MAX_CLIENTS,
            state@ == orig,
            sel == expired_at(now_ms),
            to_remove@ == slot_ids(orig.slots, i as int, sel),
        decreases MAX_CLIENTS - i,
    {
        let slot = state.slots[i];
        if slot.occupied {
            match slot.last_packet_time {
                Some(last) => {
                    if now_ms > last && now_ms - last > INACTIVITY_TIMEOUT_MS {
                        to_remove.push(i + 1);
                    }
                },
                None => {},
            }
        }
        i = i + 1;
    }
    let ghost ids = to_remove@;
    proof {
        lemma_slot_ids_range(orig.slots, 4, sel);
    }
    let mut unplugged: Vec<u32> = Vec::new();
    let mut k: usize = 0;
    while k < to_remove.len()
        invariant
            k <= to_remove@.len(),
            ids == to_remove@,
            orig == old(state)@,
            forall|j: int| 0 <= j < ids.len() ==> #[trigger] ids[j] >= 1,
            state@ == spec_release_all(orig, ids.take(k as int)),
            unplugged@ == ids.take(k as int).map_values(|id: usize| id as u32),
        decreases to_remove@.len() - k,
    {
        let serial = release_client_slot(state, to_remove[k]);
        unplugged.push(serial);
        assert(ids.take(k + 1).drop_last() =~= ids.take(k as int));
        assert(ids.take(k + 1).map_values(|id: usize| id as u32)
            =~= ids.take(k as int).map_values(|id: usize| id as u32).push(serial));
        k = k + 1;
    }
    proof {
        assert(ids.take(ids.len() as int) =~= ids);
        lemma_release_selected(orig, 4, sel);
        if orig.wf() {
            lemma_release_all_wf(orig, ids);
        }
    }
    unplugged
}


/// First byte of a datagram that asks for a slot.
pub const PACKET_CONNECT: u8 = 0x00;

/// First byte of a datagram that carries a gamepad state.
pub const PACKET_DATA: u8 = 0x01;

/// First byte of a datagram that gives a slot up.
pub const PACKET_DISCONNECT: u8 = 0x02;

/// First byte of a datagram that only keeps a slot alive.
pub const PACKET_HEARTBEAT: u8 = 0x04;

/// Shortest datagram that carries a gamepad state.
pub const DATA_PACKET_MIN_LEN: usize = 22;

/// Offset of the gamepad state inside a state datagram.
pub const DATA_STATE_OFFSET: usize = 6;

/// What the application does after a datagram.
#[derive(Debug)]
pub enum UdpAction {
    /// Nothing.
    NoAction,
    /// A new client took slot `slot_index`: plug controller `client_id` into
    /// the bus and send `ack` back to the client.
    Connected { slot_index: usize, client_id: usize, ack: [u8; 2] },
    /// Hand `report`, the state `gamepad` of controller `client_id`, to the bus.
    Input { client_id: usize, gamepad: XinputGamepad, report: [u8; 28] },
    /// The client left: unplug controller `serial` from the bus.
    Disconnected { serial: u32 },
}

/// A datagram of `len` bytes (its first `len` bytes in `buf`) asks for a slot.
pub open spec fn is_connect(buf: Seq<u8>, len: int) -> bool {
    len > 0 && buf[0] == PACKET_CONNECT
}

/// The datagram carries a gamepad state.
pub open spec fn is_data(buf: Seq<u8>, len: int) -> bool {
    len >= DATA_PACKET_MIN_LEN && buf[0] == PACKET_DATA
}

/// The datagram gives a slot up.
pub open spec fn is_disconnect(buf: Seq<u8>, len: int) -> bool {
    len > 0 && buf[0] == PACKET_DISCONNECT
}

/// The datagram keeps a slot alive.
pub open spec fn is_heartbeat(buf: Seq<u8>, len: int) -> bool {
    len > 0 && buf[0] == PACKET_HEARTBEAT
}

/// The slot index a datagram names: its second byte, which counts from 1,
/// minus one.
pub open spec fn named_slot(buf: Seq<u8>) -> int {
    buf[1] - 1
}

/// A datagram that names a slot with a second byte of 0, which has no index.
pub open spec fn names_slot_zero(buf: Seq<u8>, len: int) -> bool {
    (is_data(buf, len) || is_disconnect(buf, len) || is_heartbeat(buf, len)) && buf[1] == 0
}

/// Slot `idx` exists and is held by the client at `from`.
pub open spec fn owned_by(m: ServerModel, idx: int, from: PeerAddr) -> bool {
    0 <= idx < MAX_CLIENTS && m.slots[idx].occupied && m.slots[idx].addr == Some(from)
}

/// The sequence number a state datagram carries: bytes 2 to 5, little-endian.
pub open spec fn packet_sequence(buf: Seq<u8>) -> int {
    le_u32(buf[2], buf[3], buf[4], buf[5])
}

/// Slot `i` just after the client at `from` took it at time `now`.
pub open spec fn connected_slot(i: int, from: PeerAddr, now: u64) -> ClientSlot {
    ClientSlot {
        occupied: true,
        client_number: Some((i + 1) as usize),
        addr: Some(from),
        last_packet_time: Some(now),
        last_sequence: 0,
    }
}

/// Slot `s` having heard from its client at time `now`.
pub open spec fn touched(s: ClientSlot, now: u64) -> ClientSlot {
    ClientSlot {
        occupied: s.occupied,
        client_number: s.client_number,
        addr: s.addr,
        last_packet_time: Some(now),
        last_sequence: s.last_sequence,
    }
}

/// Slot `s` having received the state numbered `seq` at time `now`.
pub open spec fn advanced(s: ClientSlot, now: u64, seq: int) -> ClientSlot {
    ClientSlot {
        occupied: s.occupied,
        client_number: s.client_number,
        addr: s.addr,
        last_packet_time: Some(now),
        last_sequence: seq as u32,
    }
}

/// Whether a datagram names a slot with a second byte of 0, so that
/// `handle_datagram` may not be called on it.
pub fn datagram_names_slot_zero(buf: &[u8], len: usize) -> (b: bool)
    requires
        2 <= buf@.len(),
        len <= buf@.len(),
    ensures
        b == names_slot_zero(buf@, len as int),
{
    len > 0 && buf[1] == 0 && ((buf[0] == PACKET_DATA && len >= DATA_PACKET_MIN_LEN) || buf[0]
        == PACKET_DISCONNECT || buf[0] == PACKET_HEARTBEAT)
}

fn owns_slot(slot: &ClientSlot, from: &PeerAddr) -> (b: bool)
    ensures
        b == (slot.occupied && slot.addr == Some(*from)),
{
    if !slot.occupied {
        return false;
    }
    match slot.addr {
        Some(a) => a == *from,
        None => false,
    }
}

/// Handles one datagram of `len` bytes, held in the first `len` bytes of
/// the receive buffer `buf`, that came from `from` (whose IP address reads
/// `ip`) at time `now_ms`. Returns what the application does next.
pub fn handle_datagram(
    state: &mut ServerState,
    buf: &[u8],
    len: usize,
    from: PeerAddr,
    ip: String,
    now_ms: u64,
) -> (act: UdpAction)
    requires
        old(state)@.wf(),
        2 <= buf@.len(),
        len <= buf@.len(),
        !names_slot_zero(buf@, len as int),
    ensures
        final(state)@.wf(),
        slots_numbered(final(state)@.slots),
        forall|j: int|
            0 <= j < MAX_CLIENTS && old(state)@.slots[j].occupied && old(state)@.slots[j].addr != Some(from)
                ==> #[trigger] final(state)@.slots[j] == old(state)@.slots[j],
        forall|j: int|
            0 <= j < MAX_CLIENTS && old(state)@.slots[j].occupied && #[trigger] final(state)@.slots[j].occupied
                ==> final(state)@.slots[j].last_sequence >= old(state)@.slots[j].last_sequence,
        act matches UdpAction::Input { client_id, gamepad, .. } ==> {
            &&& client_id == buf@[1]
            &&& final(state)@.slots[client_id - 1].last_sequence == buf@[2] + 256 * buf@[3] + 65536 * buf@[4]
                + 16777216 * buf@[5]
            &&& gamepad.w_buttons == buf@[6] + 256 * buf@[7]
            &&& gamepad.b_left_trigger == buf@[8]
            &&& gamepad.b_right_trigger == buf@[9]
            &&& gamepad.s_thumb_lx == buf@[10] + 256 * buf@[11] - (if buf@[11] >= 128 { 0x1_0000int } else { 0 })
            &&& gamepad.s_thumb_ly == buf@[12] + 256 * buf@[13] - (if buf@[13] >= 128 { 0x1_0000int } else { 0 })
            &&& gamepad.s_thumb_rx == buf@[14] + 256 * buf@[15] - (if buf@[15] >= 128 { 0x1_0000int } else { 0 })
            &&& gamepad.s_thumb_ry == buf@[16] + 256 * buf@[17] - (if buf@[17] >= 128 { 0x1_0000int } else { 0 })
        },
        act matches UdpAction::Connected { client_id, ack, .. } ==> ack@[0] == 0 && ack@[1] == client_id,
        act matches UdpAction::Input { client_id, .. } ==> {
            &&& 1 <= client_id <= MAX_CLIENTS
            &&& old(state)@.slots[client_id - 1].last_sequence < final(state)@.slots[client_id - 1].last_sequence
        },
        !is_connect(buf@, len as int) && !is_data(buf@, len as int) && !is_disconnect(buf@, len as int)
            && !is_heartbeat(buf@, len as int) ==> final(state)@ == old(state)@ && act is NoAction,
        is_connect(buf@, len as int) && !has_free_slot(old(state)@.slots) ==> final(state)@ == old(state)@
            && act is NoAction,
        is_connect(buf@, len as int) && has_free_slot(old(state)@.slots) ==> {
            &&& act matches UdpAction::Connected { slot_index, client_id, ack }
            &&& is_first_free(old(state)@.slots, slot_index as int)
            &&& client_id == slot_index + 1
            &&& ack@ == seq![PACKET_CONNECT, (slot_index + 1) as u8]
            &&& final(state)@.slots == old(state)@.slots.update(
                slot_index as int,
                connected_slot(slot_index as int, from, now_ms),
            )
            &&& final(state)@.clients == spec_add_client(old(state)@.clients, ip, slot_index as int)
            &&& old(state)@.clients.len() < MAX_CONNECTED_CLIENTS ==> {
                &&& final(state)@.clients.len() == old(state)@.clients.len() + 1
                &&& final(state)@.clients.last() == ClientInfo { ip, slot: client_id }
                &&& final(state)@.clients.drop_last() == old(state)@.clients
            }
            &&& old(state)@.clients.len() >= MAX_CONNECTED_CLIENTS ==> final(state)@.clients == old(state)@.clients
        },
        is_data(buf@, len as int) && !owned_by(old(state)@, named_slot(buf@), from) ==> final(state)@
            == old(state)@ && act is NoAction,
        is_data(buf@, len as int) && owned_by(old(state)@, named_slot(buf@), from) && packet_sequence(buf@)
            > old(state)@.slots[named_slot(buf@)].last_sequence ==> {
            &&& final(state)@.slots == old(state)@.slots.update(
                named_slot(buf@),
                advanced(old(state)@.slots[named_slot(buf@)], now_ms, packet_sequence(buf@)),
            )
            &&& final(state)@.clients == old(state)@.clients
            &&& act matches UdpAction::Input { client_id, gamepad, report }
            &&& client_id == named_slot(buf@) + 1
            &&& gamepad == spec_decode(buf@.subrange(DATA_STATE_OFFSET as int, DATA_STATE_OFFSET + 12))
            &&& report@ == spec_report(client_id as int, gamepad)
        },
        is_data(buf@, len as int) && owned_by(old(state)@, named_slot(buf@), from) && packet_sequence(buf@)
            <= old(state)@.slots[named_slot(buf@)].last_sequence ==> {
            &&& final(state)@.slots == old(state)@.slots.update(
                named_slot(buf@),
                touched(old(state)@.slots[named_slot(buf@)], now_ms),
            )
            &&& final(state)@.clients == old(state)@.clients
            &&& act is NoAction
        },
        is_disconnect(buf@, len as int) && owned_by(old(state)@, named_slot(buf@), from) ==> final(state)@
            == spec_release(old(state)@, named_slot(buf@) + 1) && act == (UdpAction::Disconnected {
            serial: (named_slot(buf@) + 1) as u32,
        }),
        is_disconnect(buf@, len as int) && !owned_by(old(state)@, named_slot(buf@), from) ==> final(state)@
            == old(state)@ && act is NoAction,
        is_heartbeat(buf@, len as int) && owned_by(old(state)@, named_slot(buf@), from) ==> {
            &&& final(state)@.slots == old(state)@.slots.update(
                named_slot(buf@),
                touched(old(state)@.slots[named_slot(buf@)], now_ms),
            )
            &&& final(state)@.clients == old(state)@.clients
            &&& act is NoAction
        },
        is_heartbeat(buf@, len as int) && !owned_by(old(state)@, named_slot(buf@), from) ==> final(state)@
            == old(state)@ && act is NoAction,
{
    let act = if len == 0 {
        UdpAction::NoAction
    } else {
        let packet_type = buf[0];
        if packet_type == PACKET_CONNECT {
            match acquire_client_slot(&mut state.slots) {
                Some((slot_idx, client_id)) => {
                    let mut s = state.slots[slot_idx];
                    s.addr = Some(from);
                    s.last_packet_time = Some(now_ms);
                    state.slots[slot_idx] = s;
                    let _ = add_connected_client(&mut state.clients, ip, slot_idx);
                    let ack: [u8; 2] = [PACKET_CONNECT, client_id as u8];
                    assert(ack@ =~= seq![PACKET_CONNECT, (slot_idx + 1) as u8]);
                    proof {
                        assert(state@.slots =~= old(state)@.slots.update(slot_idx as int, state@.slots[slot_idx as int]));
                        lemma_update_slot_wf(old(state)@, slot_idx as int, state@.slots[slot_idx as int]);
                    }
                    UdpAction::Connected { slot_index: slot_idx, client_id, ack }
                },
                None => UdpAction::NoAction,
            }
        } else if packet_type == PACKET_DATA && len >= DATA_PACKET_MIN_LEN {
            let slot_idx = (buf[1] - 1) as usize;
            if slot_idx < MAX_CLIENTS && owns_slot(&state.slots[slot_idx], &from) {
                let mut s = state.slots[slot_idx];
                s.last_packet_time = Some(now_ms);
                let seq: u32 = buf[2] as u32 + 0x100 * (buf[3] as u32) + 0x1_0000 * (buf[4] as u32)
                    + 0x100_0000 * (buf[5] as u32);
                let execute = seq > s.last_sequence;
                if execute {
                    s.last_sequence = seq;
                }
                state.slots[slot_idx] = s;
                proof {
                    assert(state@.slots =~= old(state)@.slots.update(slot_idx as int, state@.slots[slot_idx as int]));
                    assert(slot_wf(old(state)@.slots[slot_idx as int], slot_idx as int));
                    lemma_update_slot_wf(old(state)@, slot_idx as int, state@.slots[slot_idx as int]);
                }
                if execute {
                    let gamepad = XinputGamepad::decode(buf, DATA_STATE_OFFSET);
                proof {
                    lemma_decode_fields(buf@.subrange(DATA_STATE_OFFSET as int, DATA_STATE_OFFSET + 12));
                }
                    let client_id = slot_idx + 1;
                    let report = build_report(client_id, &gamepad);
                    UdpAction::Input { client_id, gamepad, report }
                } else {
                    UdpAction::NoAction
                }
            } else {
                UdpAction::NoAction
            }
        } else if packet_type == PACKET_DISCONNECT {
            let slot_idx = (buf[1] - 1) as usize;
            if slot_idx < MAX_CLIENTS && owns_slot(&state.slots[slot_idx], &from) {
                let serial = release_client_slot(state, slot_idx + 1);
                UdpAction::Disconnected { serial }
            } else {
                UdpAction::NoAction
            }
        } else if packet_type == PACKET_HEARTBEAT {
            let slot_idx = (buf[1] - 1) as usize;
            if slot_idx < MAX_CLIENTS && owns_slot(&state.slots[slot_idx], &from) {
                let mut s = state.slots[slot_idx];
                s.last_packet_time = Some(now_ms);
                state.slots[slot_idx] = s;
                proof {
                    assert(state@.slots =~= old(state)@.slots.update(slot_idx as int, state@.slots[slot_idx as int]));
                    assert(slot_wf(old(state)@.slots[slot_idx as int], slot_idx as int));
                    lemma_update_slot_wf(old(state)@, slot_idx as int, state@.slots[slot_idx as int]);
                }
            }
            UdpAction::NoAction
        } else {
            UdpAction::NoAction
        }
    };
    proof {
        lemma_wf_numbered(state@);
    }
    act
}

/// A client that takes the first free slot and then gives it up leaves the
/// slot table as it was before it came: the slot is its own while it
/// holds it, and free again afterwards.
pub proof fn lemma_connect_then_disconnect(m: ServerModel, i: int, from: PeerAddr, now: u64, clients: Seq<ClientInfo>)
    requires
        m.wf(),
        is_first_free(m.slots, i),
    ensures
        owned_by(ServerModel { slots: m.slots.update(i, connected_slot(i, from, now)), clients }, i, from),
        spec_release(ServerModel { slots: m.slots.update(i, connected_slot(i, from, now)), clients }, i + 1).slots
            == m.slots,
{
    assert(slot_wf(m.slots[i], i));
    let m1 = ServerModel { slots: m.slots.update(i, connected_slot(i, from, now)), clients };
    assert(spec_release(m1, i + 1).slots =~= m.slots);
}

/// A connect that takes slot `i` records the client, when the list has
/// room, as a new last entry `{ip, slot: i + 1}`, the number the
/// acknowledgement carries, and keeps every earlier entry in order; a
/// full list is left as it is.
pub proof fn lemma_connect_records_client(clients: Seq<ClientInfo>, ip: String, i: int)
    requires
        0 <= i < MAX_CLIENTS,
    ensures
        clients.len() < MAX_CONNECTED_CLIENTS ==> {
            &&& spec_add_client(clients, ip, i).len() == clients.len() + 1
            &&& spec_add_client(clients, ip, i)[clients.len() as int] == ClientInfo { ip, slot: (i + 1) as usize }
            &&& forall|j: int| 0 <= j < clients.len() ==> #[trigger] spec_add_client(clients, ip, i)[j] == clients[j]
        },
        clients.len() >= MAX_CONNECTED_CLIENTS ==> spec_add_client(clients, ip, i) == clients,
{
}

/// Releasing client `k` removes exactly entry `k - 1` of the client list,
/// when there is one, keeping every other entry in order, and frees slot
/// `k - 1`, when there is one, keeping every other slot.
pub proof fn lemma_release_removes_entry(m: ServerModel, k: int)
    requires
        k >= 1,
        m.slots.len() == MAX_CLIENTS,
    ensures
        k - 1 < m.clients.len() ==> {
            &&& spec_release(m, k).clients.len() == m.clients.len() - 1
            &&& forall|j: int| 0 <= j < k - 1 ==> #[trigger] spec_release(m, k).clients[j] == m.clients[j]
            &&& forall|j: int| k - 1 <= j < m.clients.len() - 1 ==> #[trigger] spec_release(m, k).clients[j]
                == m.clients[j + 1]
        },
        k - 1 >= m.clients.len() ==> spec_release(m, k).clients == m.clients,
        spec_release(m, k).slots.len() == MAX_CLIENTS,
        forall|j: int|
            0 <= j < MAX_CLIENTS ==> #[trigger] spec_release(m, k).slots[j] == if j == k - 1 {
                ClientSlot {
                    occupied: false,
                    client_number: None,
                    addr: None,
                    last_packet_time: None,
                    last_sequence: 0,
                }
            } else {
                m.slots[j]
            },
{
}

} // verus!
