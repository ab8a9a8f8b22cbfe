//! The decisions of the voice server: which rooms have clients connected,
//! how a new connection is handled, and the sessions that turn wake words,
//! push-to-talk messages and recordings into transcriptions.
use vstd::prelude::*;
use crate::text::{chars_of, copy_string, push_str, str_eq, str_to_string, string_from_chars, sub_chars};
use crate::pattern::{find_pos, pos_of};

verus! {

// ---------------------------------------------------------------------------
// Connected clients
// ---------------------------------------------------------------------------

/// The connections of one client (room and address).
pub struct ClientSlot {
    pub room: String,
    pub ip: String,
    /// How many connections are open.
    pub count: usize,
    /// When the first of them was opened, in seconds since the epoch.
    pub connected_at: u64,
}

/// The clients connected to the server, by room and address.
pub struct ClientRegistry {
    pub entries: Vec<ClientSlot>,
}

/// A client's key.
pub type ClientKey = (Seq<char>, Seq<char>);

/// The registry as a map from (room, address) to (open connections, time
/// of the first).
pub open spec fn registry_map(v: Seq<ClientSlot>) -> Map<ClientKey, (int, u64)>
    decreases v.len(),
{
    if v.len() == 0 {
        Map::empty()
    } else {
        let e = v.last();
        registry_map(v.drop_last()).insert((e.room@, e.ip@), (e.count as int, e.connected_at))
    }
}

/// Every client appears once and has at least one connection.
pub open spec fn registry_wf(v: Seq<ClientSlot>) -> bool {
    &&& forall|i: int, j: int|
        0 <= i < j < v.len() ==> ((#[trigger] v[i]).room@, v[i].ip@) != ((#[trigger] v[j]).room@, v[j].ip@)
    &&& forall|i: int| 0 <= i < v.len() ==> (#[trigger] v[i]).count >= 1
}

/// The registry after a connection of a client: one more connection; a new
/// client starts with one, opened now.
pub open spec fn reg_add(m: Map<ClientKey, (int, u64)>, k: ClientKey, now: u64) -> Map<ClientKey, (int, u64)> {
    if m.dom().contains(k) {
        m.insert(k, (m[k].0 + 1, m[k].1))
    } else {
        m.insert(k, (1, now))
    }
}

/// The registry after a client's connection closes: one connection less,
/// and the client gone with its last one; unknown clients change nothing.
pub open spec fn reg_remove(m: Map<ClientKey, (int, u64)>, k: ClientKey) -> Map<ClientKey, (int, u64)> {
    if m.dom().contains(k) {
        if m[k].0 > 1 {
            m.insert(k, (m[k].0 - 1, m[k].1))
        } else {
            m.remove(k)
        }
    } else {
        m
    }
}

/// Opening and then closing a connection leaves the registry as it was.
pub proof fn lemma_add_then_remove(m: Map<ClientKey, (int, u64)>, k: ClientKey, now: u64)
    requires
        forall|x: ClientKey| #[trigger] m.dom().contains(x) ==> m[x].0 >= 1,
    ensures
        reg_remove(reg_add(m, k, now), k) == m,
{
    if m.dom().contains(k) {
        assert(reg_remove(reg_add(m, k, now), k) =~= m);
    } else {
        assert(reg_remove(reg_add(m, k, now), k) =~= m);
    }
}

proof fn lemma_registry_map_props(v: Seq<ClientSlot>)
    requires
        registry_wf(v),
    ensures
        forall|i: int| 0 <= i < v.len() ==> registry_map(v).dom().contains(((#[trigger] v[i]).room@, v[i].ip@))
            && registry_map(v)[(v[i].room@, v[i].ip@)] == (v[i].count as int, v[i].connected_at),
        forall|k: ClientKey| #[trigger] registry_map(v).dom().contains(k) ==> exists|i: int|
            0 <= i < v.len() && (v[i].room@, v[i].ip@) == k,
    decreases v.len(),
{
    if v.len() > 0 {
        let d = v.drop_last();
        assert(registry_wf(d)) by {
            assert forall|i: int, j: int| 0 <= i < j < d.len() implies ((#[trigger] d[i]).room@, d[i].ip@) != (
            (#[trigger] d[j]).room@, d[j].ip@) by {
                assert(d[i] == v[i] && d[j] == v[j]);
            }
            assert forall|i: int| 0 <= i < d.len() implies (#[trigger] d[i]).count >= 1 by {
                assert(d[i] == v[i]);
            }
        }
        lemma_registry_map_props(d);
        assert forall|i: int| 0 <= i < v.len() implies registry_map(v).dom().contains(((#[trigger] v[i]).room@, v[i].ip@))
            && registry_map(v)[(v[i].room@, v[i].ip@)] == (v[i].count as int, v[i].connected_at) by {
            if i < v.len() - 1 {
                assert(d[i] == v[i]);
                assert((v[i].room@, v[i].ip@) != (v[v.len() - 1].room@, v[v.len() - 1].ip@));
            }
        }
        assert forall|k: ClientKey| #[trigger] registry_map(v).dom().contains(k) implies exists|i: int|
            0 <= i < v.len() && (v[i].room@, v[i].ip@) == k by {
            if k != (v.last().room@, v.last().ip@) {
                assert(registry_map(d).dom().contains(k));
                let i = choose|i: int| 0 <= i < d.len() && (d[i].room@, d[i].ip@) == k;
                assert(d[i] == v[i]);
            } else {
                assert((v[v.len() - 1].room@, v[v.len() - 1].ip@) == k);
            }
        }
    }
}

impl ClientRegistry {
    /// An empty registry.
    pub fn new() -> (r: ClientRegistry)
        ensures
            r.entries@.len() == 0,
            registry_wf(r.entries@),
            registry_map(r.entries@) == Map::<ClientKey, (int, u64)>::empty(),
    {
        ClientRegistry { entries: Vec::new() }
    }

    fn position(&self, room: &str, ip: &str) -> (r: Option<usize>)
        ensures
            match r {
                Some(i) => i < self.entries@.len() && self.entries@[i as int].room@ == room@
                    && self.entries@[i as int].ip@ == ip@,
                None => forall|i: int|
                    0 <= i < self.entries@.len() ==> ((#[trigger] self.entries@[i]).room@, self.entries@[i].ip@)
                        != (room@, ip@),
            },
    {
        let mut i: usize = 0;
        while i < self.entries.len()
            invariant
                0 <= i <= self.entries@.len(),
                forall|k: int| 0 <= k < i ==> ((#[trigger] self.entries@[k]).room@, self.entries@[k].ip@) != (room@, ip@),
            decreases self.entries@.len() - i,
        {
            if str_eq(self.entries[i].room.as_str(), room) && str_eq(self.entries[i].ip.as_str(), ip) {
                return Some(i);
            }
            i = i + 1;
        }
        None
    }

    /// How many connections a client has open.
    pub fn connections(&self, room: &str, ip: &str) -> (n: usize)
        requires
            registry_wf(self.entries@),
        ensures
            n as int == (if registry_map(self.entries@).dom().contains((room@, ip@)) {
                registry_map(self.entries@)[(room@, ip@)].0
            } else {
                0
            }),
    {
        proof {
            lemma_registry_map_props(self.entries@);
        }
        match self.position(room, ip) {
            Some(i) => self.entries[i].count,
            None => {
                proof {
                    if registry_map(self.entries@).dom().contains((room@, ip@)) {
                        let i = choose|i: int| 0 <= i < self.entries@.len() && (self.entries@[i].room@, self.entries@[i].ip@) == (room@, ip@);
                        assert(((self.entries@[i]).room@, self.entries@[i].ip@) != (room@, ip@));
                    }
                }
                0
            },
        }
    }

    /// Records a new connection of a client at time `now`.
    pub fn add_connection(&mut self, room: &str, ip: &str, now: u64)
        requires
            registry_wf(old(self).entries@),
            !registry_map(old(self).entries@).dom().contains((room@, ip@)) || registry_map(
                old(self).entries@,
            )[(room@, ip@)].0 < usize::MAX,
        ensures
            registry_wf(final(self).entries@),
            registry_map(final(self).entries@) == reg_add(registry_map(old(self).entries@), (room@, ip@), now),
    {
        proof {
            lemma_registry_map_props(self.entries@);
        }
        let ghost old_v = self.entries@;
        match self.position(room, ip) {
            Some(i) => {
                assert(registry_map(old_v)[(room@, ip@)] == (old_v[i as int].count as int, old_v[i as int].connected_at));
                let slot = ClientSlot {
                    room: copy_string(&self.entries[i].room),
                    ip: copy_string(&self.entries[i].ip),
                    count: self.entries[i].count + 1,
                    connected_at: self.entries[i].connected_at,
                };
                self.entries.set(i, slot);
                proof {
                    let nv = self.entries@;
                    assert(registry_wf(nv)) by {
                        assert forall|a: int, b: int| 0 <= a < b < nv.len() implies ((#[trigger] nv[a]).room@, nv[a].ip@)
                            != ((#[trigger] nv[b]).room@, nv[b].ip@) by {
                            assert((old_v[a].room@, old_v[a].ip@) != (old_v[b].room@, old_v[b].ip@));
                        }
                    }
                    lemma_registry_map_props(nv);
                    let target = reg_add(registry_map(old_v), (room@, ip@), now);
                    assert forall|k: ClientKey| registry_map(nv).dom().contains(k) <==> target.dom().contains(k) by {
                        if registry_map(nv).dom().contains(k) {
                            let q = choose|q: int| 0 <= q < nv.len() && (nv[q].room@, nv[q].ip@) == k;
                            assert((old_v[q].room@, old_v[q].ip@) == k);
                        }
                        if target.dom().contains(k) && k != (room@, ip@) {
                            let q = choose|q: int| 0 <= q < old_v.len() && (old_v[q].room@, old_v[q].ip@) == k;
                            assert((nv[q].room@, nv[q].ip@) == k);
                        }
                        if k == (room@, ip@) {
                            assert((nv[i as int].room@, nv[i as int].ip@) == k);
                        }
                    }
                    assert forall|k: ClientKey| #[trigger] registry_map(nv).dom().contains(k) implies registry_map(nv)[k]
                        == target[k] by {
                        let q = choose|q: int| 0 <= q < nv.len() && (nv[q].room@, nv[q].ip@) == k;
                        if q != i {
                            assert(old_v[q] == nv[q]);
                        }
                    }
                    assert(registry_map(nv) =~= target);
                }
            },
            None => {
                let slot = ClientSlot { room: str_to_string(room), ip: str_to_string(ip), count: 1, connected_at: now };
                self.entries.push(slot);
                proof {
                    let nv = self.entries@;
                    assert(nv.drop_last() =~= old_v);
                    assert(registry_wf(nv)) by {
                        assert forall|a: int, b: int| 0 <= a < b < nv.len() implies ((#[trigger] nv[a]).room@, nv[a].ip@)
                            != ((#[trigger] nv[b]).room@, nv[b].ip@) by {
                            if b < nv.len() - 1 {
                                assert(nv[a] == old_v[a] && nv[b] == old_v[b]);
                            } else {
                                assert(nv[a] == old_v[a]);
                            }
                        }
                        assert forall|a: int| 0 <= a < nv.len() implies (#[trigger] nv[a]).count >= 1 by {
                            if a < nv.len() - 1 {
                                assert(nv[a] == old_v[a]);
                            }
                        }
                    }
                    if registry_map(old_v).dom().contains((room@, ip@)) {
                        let q = choose|q: int| 0 <= q < old_v.len() && (old_v[q].room@, old_v[q].ip@) == (room@, ip@);
                        assert(((old_v[q]).room@, old_v[q].ip@) != (room@, ip@));
                    }
                    assert(registry_map(nv) =~= reg_add(registry_map(old_v), (room@, ip@), now));
                }
            },
        }
    }

    /// Records that a connection of a client closed; the client goes with
    /// its last connection. Answers whether the client was known (the
    /// caller saves the registry then).
    pub fn remove_connection(&mut self, room: &str, ip: &str) -> (changed: bool)
        requires
            registry_wf(old(self).entries@),
        ensures
            registry_wf(final(self).entries@),
            registry_map(final(self).entries@) == reg_remove(registry_map(old(self).entries@), (room@, ip@)),
            changed == registry_map(old(self).entries@).dom().contains((room@, ip@)),
    {
        proof {
            lemma_registry_map_props(self.entries@);
        }
        let ghost old_v = self.entries@;
        match self.position(room, ip) {
            Some(i) => {
                assert(registry_map(old_v)[(room@, ip@)] == (old_v[i as int].count as int, old_v[i as int].connected_at));
                if self.entries[i].count > 1 {
                    let slot = ClientSlot {
                        room: copy_string(&self.entries[i].room),
                        ip: copy_string(&self.entries[i].ip),
                        count: self.entries[i].count - 1,
                        connected_at: self.entries[i].connected_at,
                    };
                    self.entries.set(i, slot);
                    proof {
                        let nv = self.entries@;
                        assert(registry_wf(nv)) by {
                            assert forall|a: int, b: int| 0 <= a < b < nv.len() implies ((#[trigger] nv[a]).room@, nv[a].ip@)
                                != ((#[trigger] nv[b]).room@, nv[b].ip@) by {
                                assert((old_v[a].room@, old_v[a].ip@) != (old_v[b].room@, old_v[b].ip@));
                            }
                        }
                        lemma_registry_map_props(nv);
                        let target = reg_remove(registry_map(old_v), (room@, ip@));
                        assert forall|k: ClientKey| registry_map(nv).dom().contains(k) <==> target.dom().contains(k) by {
                            if registry_map(nv).dom().contains(k) {
                                let q = choose|q: int| 0 <= q < nv.len() && (nv[q].room@, nv[q].ip@) == k;
                                assert((old_v[q].room@, old_v[q].ip@) == k);
                            }
                            if target.dom().contains(k) && k != (room@, ip@) {
                                let q = choose|q: int| 0 <= q < old_v.len() && (old_v[q].room@, old_v[q].ip@) == k;
                                assert((nv[q].room@, nv[q].ip@) == k);
                            }
                            if k == (room@, ip@) {
                                assert((nv[i as int].room@, nv[i as int].ip@) == k);
                            }
                        }
                        assert forall|k: ClientKey| #[trigger] registry_map(nv).dom().contains(k) implies registry_map(
                            nv,
                        )[k] == target[k] by {
                            let q = choose|q: int| 0 <= q < nv.len() && (nv[q].room@, nv[q].ip@) == k;
                            if q != i {
                                assert(old_v[q] == nv[q]);
                            }
                        }
                        assert(registry_map(nv) =~= target);
                    }
                } else {
                    self.entries.remove(i);
                    proof {
                        let nv = self.entries@;
                        assert(nv =~= old_v.remove(i as int));
                        assert(registry_wf(nv)) by {
                            assert forall|a: int, b: int| 0 <= a < b < nv.len() implies ((#[trigger] nv[a]).room@, nv[a].ip@)
                                != ((#[trigger] nv[b]).room@, nv[b].ip@) by {
                                let oa = if a < i { a } else { a + 1 };
                                let ob = if b < i { b } else { b + 1 };
                                assert(nv[a] == old_v[oa] && nv[b] == old_v[ob]);
                                assert((old_v[oa].room@, old_v[oa].ip@) != (old_v[ob].room@, old_v[ob].ip@));
                            }
                            assert forall|a: int| 0 <= a < nv.len() implies (#[trigger] nv[a]).count >= 1 by {
                                let oa = if a < i { a } else { a + 1 };
                                assert(nv[a] == old_v[oa]);
                            }
                        }
                        lemma_registry_map_props(nv);
                        let target = reg_remove(registry_map(old_v), (room@, ip@));
                        assert forall|k: ClientKey| registry_map(nv).dom().contains(k) <==> target.dom().contains(k) by {
                            if registry_map(nv).dom().contains(k) {
                                let q = choose|q: int| 0 <= q < nv.len() && (nv[q].room@, nv[q].ip@) == k;
                                let oq = if q < i { q } else { q + 1 };
                                assert(nv[q] == old_v[oq]);
                                assert((old_v[oq].room@, old_v[oq].ip@) != (old_v[i as int].room@, old_v[i as int].ip@));
                            }
                            if target.dom().contains(k) {
                                let q = choose|q: int| 0 <= q < old_v.len() && (old_v[q].room@, old_v[q].ip@) == k;
                                assert(q != i);
                                let nq = if q < i { q } else { q - 1 };
                                assert(nv[nq] == old_v[q]);
                            }
                        }
                        assert forall|k: ClientKey| #[trigger] registry_map(nv).dom().contains(k) implies registry_map(
                            nv,
                        )[k] == target[k] by {
                            let q = choose|q: int| 0 <= q < nv.len() && (nv[q].room@, nv[q].ip@) == k;
                            let oq = if q < i { q } else { q + 1 };
                            assert(nv[q] == old_v[oq]);
                        }
                        assert(registry_map(nv) =~= target);
                    }
                }
                true
            },
            None => {
                proof {
                    if registry_map(old_v).dom().contains((room@, ip@)) {
                        let q = choose|q: int| 0 <= q < old_v.len() && (old_v[q].room@, old_v[q].ip@) == (room@, ip@);
                        assert(((old_v[q]).room@, old_v[q].ip@) != (room@, ip@));
                    }
                }
                false
            },
        }
    }
}

// ---------------------------------------------------------------------------
// New connections
// ---------------------------------------------------------------------------

/// How a connection is served.
pub enum ClientKind {
    /// Two-way audio with the room's speaker.
    Intercom,
    /// Push-to-talk recordings.
    PushToTalk,
    /// Wake word detection with server-side recording (ESP32 devices).
    Esp,
    /// Wake word detection with client-side recording.
    WakeWord,
}

/// The plan for a new connection: how it is served, and under which room
/// it is registered before and unregistered after.
pub struct ConnectionPlan {
    pub kind: ClientKind,
    pub register: Option<String>,
    pub unregister: Option<String>,
}

/// The view of an optional string.
pub open spec fn ostr(o: Option<String>) -> Option<Seq<char>> {
    match o {
        Some(s) => Some(s@),
        None => None,
    }
}

/// Plans a connection from the room the client announced: `intercom`
/// (unregistered when it ends), `oneshot` push-to-talk clients (counted
/// under `esp`), `esp` devices, and wake word clients; a named room is
/// registered for the time of the connection.
pub fn plan_connection(room: &str) -> (r: ConnectionPlan)
    ensures
        room@ == "intercom"@ ==> r.kind is Intercom && ostr(r.register) is None && ostr(r.unregister) == Some(
            "intercom"@,
        ),
        room@ == "oneshot"@ ==> r.kind is PushToTalk && ostr(r.register) == Some("esp"@) && ostr(r.unregister)
            == Some("esp"@),
        room@ != "intercom"@ && room@ != "oneshot"@ ==> {
            &&& (if room@ == "esp"@ {
                r.kind is Esp
            } else {
                r.kind is WakeWord
            })
            &&& ostr(r.register) == (if room@.len() > 0 {
                Some(room@)
            } else {
                None
            })
            &&& ostr(r.unregister) == ostr(r.register)
        },
{
    proof {
        reveal_strlit("intercom");
        reveal_strlit("oneshot");
        reveal_strlit("esp");
    }
    if str_eq(room, "intercom") {
        return ConnectionPlan { kind: ClientKind::Intercom, register: None, unregister: Some(str_to_string("intercom")) };
    }
    if str_eq(room, "oneshot") {
        return ConnectionPlan {
            kind: ClientKind::PushToTalk,
            register: Some(str_to_string("esp")),
            unregister: Some(str_to_string("esp")),
        };
    }
    let kind = if str_eq(room, "esp") {
        ClientKind::Esp
    } else {
        ClientKind::WakeWord
    };
    let rc = chars_of(room);
    if rc.len() > 0 {
        ConnectionPlan { kind, register: Some(str_to_string(room)), unregister: Some(str_to_string(room)) }
    } else {
        ConnectionPlan { kind, register: None, unregister: None }
    }
}

/// How a client is named in the log: by room, or by address without one.
pub fn display_id(room: &str, peer_addr: &str) -> (r: String)
    ensures
        r@ == (if room@.len() == 0 {
            "client @ "@ + peer_addr@
        } else {
            "room '"@ + room@ + "'"@
        }),
{
    let rc = chars_of(room);
    let mut out: Vec<char> = Vec::new();
    if rc.len() == 0 {
        push_str(&mut out, "client @ ");
        push_str(&mut out, peer_addr);
    } else {
        push_str(&mut out, "room '");
        push_str(&mut out, room);
        push_str(&mut out, "'");
    }
    string_from_chars(out.as_slice())
}

/// The host part of a peer address: the text before the first `:`.
pub fn peer_ip(peer_addr: &str) -> (r: String)
    ensures
        r@ == (if pos_of(peer_addr@, ':') < 0 {
            peer_addr@
        } else {
            peer_addr@.take(pos_of(peer_addr@, ':'))
        }),
{
    let cs = chars_of(peer_addr);
    match find_pos(cs.as_slice(), ':') {
        Some(i) => {
            let head = sub_chars(cs.as_slice(), 0, i);
            string_from_chars(head.as_slice())
        },
        None => str_to_string(peer_addr),
    }
}

/// The byte that tells a client how its command went.
pub fn result_byte(success: bool) -> (b: u8)
    ensures
        b == (if success {
            3u8
        } else {
            4u8
        }),
{
    if success {
        0x03
    } else {
        0x04
    }
}

// ---------------------------------------------------------------------------
// Wake word clients
// ---------------------------------------------------------------------------

/// What to do with a chunk of a wake word client.
pub enum WakeAction {
    /// No wake word.
    Ignore,
    /// A wake word within a second of the last one: wait a little.
    Debounce,
    /// A wake word: acknowledge it, take the recording and transcribe it.
    Respond,
}

/// The wake word state of a client: when the last wake word was handled,
/// in milliseconds of a monotonic clock.
pub struct WakeSession {
    pub last_detection_ms: Option<u64>,
}

impl WakeSession {
    /// A client that has not woken the server yet.
    pub fn new() -> (s: WakeSession)
        ensures
            s.last_detection_ms is None,
    {
        WakeSession { last_detection_ms: None }
    }

    /// Decides on a chunk: nothing without a wake word; a wake word within
    /// 1000 ms of the last one handled is debounced; otherwise answered.
    pub fn on_chunk(&self, detected: bool, now_ms: u64) -> (a: WakeAction)
        ensures
            !detected ==> a is Ignore,
            detected ==> (match self.last_detection_ms {
                Some(t) => if now_ms - t < 1000 {
                    a is Debounce
                } else {
                    a is Respond
                },
                None => a is Respond,
            }),
    {
        if !detected {
            return WakeAction::Ignore;
        }
        match self.last_detection_ms {
            Some(t) => {
                if now_ms.saturating_sub(t) < 1000 {
                    WakeAction::Debounce
                } else {
                    WakeAction::Respond
                }
            },
            None => WakeAction::Respond,
        }
    }

    /// Records that a wake word was handled at `now_ms`.
    pub fn finished(&mut self, now_ms: u64)
        ensures
            final(self).last_detection_ms == Some(now_ms),
    {
        self.last_detection_ms = Some(now_ms);
    }
}

/// Whether a message byte announces the recording (`0x02`); other bytes
/// announce a pending wake chunk that is discarded.
pub fn is_recording_message(byte: u8) -> (b: bool)
    ensures
        b == (byte == 2),
{
    byte == 0x02
}

// ---------------------------------------------------------------------------
// ESP32 devices
// ---------------------------------------------------------------------------

/// Samples per second of the audio stream.
pub const SAMPLE_RATE: u64 = 16000;
/// The silence window: half a second of samples.
pub const WINDOW_SAMPLES: usize = 8000;
/// Trailing silence cut before transcription: 1.5 seconds of samples.
pub const TRIM_SAMPLES: usize = 24000;
/// The longest recording, in milliseconds.
pub const MAX_RECORDING_MS: u64 = 5000;
/// Silence that ends a recording, in milliseconds.
pub const SILENCE_TIMEOUT_MS: u64 = 1000;
/// Time after a transcription and between wake words, in milliseconds.
pub const COOLDOWN_MS: u64 = 5000;

/// Where an ESP32 session stands.
pub enum EspState {
    /// Listening for the wake word.
    Normal,
    /// Recording a command.
    Recording { buffered: usize, start_ms: u64, last_speech_ms: u64 },
    /// A recording is being transcribed.
    Transcribing,
    /// Ignoring audio after a transcription.
    Cooldown { until_ms: u64 },
}

/// What to do with a chunk of an ESP32 device.
pub enum EspAction {
    /// Nothing.
    Idle,
    /// A wake word: acknowledge it, play the awake sound and start a
    /// recording with this chunk.
    StartRecording,
    /// Append the chunk to the recording.
    KeepRecording,
    /// The recording ended: save it, tell the device, keep its first `keep`
    /// samples and transcribe them.
    FinishRecording { keep: usize },
    /// The cooldown is over: listen for the wake word again.
    Resume,
}

/// One chunk of an ESP32 device, as far as the session needs it: its
/// number of samples, whether the wake word model fired on it (while
/// listening), and whether the last half second of the recording is louder
/// than the silence threshold (while recording).
pub struct EspChunk {
    pub samples: usize,
    pub detected: bool,
    pub speech: bool,
}

/// The session of an ESP32 device.
pub struct EspSession {
    pub state: EspState,
    pub last_detection_ms: Option<u64>,
}

/// How many samples of a finished recording are transcribed: the trailing
/// 1.5 seconds of silence are cut when the recording is longer.
pub open spec fn kept_samples(buffered: int) -> int {
    if buffered > TRIM_SAMPLES {
        buffered - TRIM_SAMPLES
    } else {
        buffered
    }
}

/// One step of an ESP32 session (see `EspSession::step`): the action `a`
/// taken on `chunk` at `now_ms`, and the session `new` it leaves from `old`.
pub open spec fn esp_step(old: EspSession, new: EspSession, chunk: EspChunk, now_ms: u64, a: EspAction) -> bool {
    match old.state {
        EspState::Normal => if !chunk.detected {
            a is Idle && new.state == old.state && new.last_detection_ms == old.last_detection_ms
        } else if old.last_detection_ms matches Some(t) && now_ms - t < COOLDOWN_MS {
            a is Idle && new.state == old.state && new.last_detection_ms == old.last_detection_ms
        } else {
            a is StartRecording && new.last_detection_ms == Some(now_ms) && new.state
                == (EspState::Recording { buffered: chunk.samples, start_ms: now_ms, last_speech_ms: now_ms })
        },
        EspState::Recording { buffered, start_ms, last_speech_ms } => {
            let total = if buffered + chunk.samples <= usize::MAX {
                buffered + chunk.samples
            } else {
                usize::MAX as int
            };
            let last = if now_ms - start_ms < MAX_RECORDING_MS && total >= WINDOW_SAMPLES
                && chunk.speech {
                now_ms
            } else {
                last_speech_ms
            };
            let stop = now_ms - start_ms >= MAX_RECORDING_MS || (total >= WINDOW_SAMPLES && now_ms
                - last > SILENCE_TIMEOUT_MS);
            &&& new.last_detection_ms == old.last_detection_ms
            &&& if stop {
                a == (EspAction::FinishRecording { keep: kept_samples(total) as usize })
                    && new.state is Transcribing
            } else {
                a is KeepRecording && new.state == (EspState::Recording {
                    buffered: total as usize,
                    start_ms,
                    last_speech_ms: last as u64,
                })
            }
        },
        EspState::Transcribing => a is Idle && new.state == old.state
            && new.last_detection_ms == old.last_detection_ms,
        EspState::Cooldown { until_ms } => new.last_detection_ms == old.last_detection_ms
            && if now_ms >= until_ms {
            a is Resume && new.state is Normal
        } else {
            a is Idle && new.state == old.state
        },
    }
}

impl EspSession {
    /// A device that is listening for the wake word.
    pub fn new() -> (s: EspSession)
        ensures
            s.state is Normal,
            s.last_detection_ms is None,
    {
        EspSession { state: EspState::Normal, last_detection_ms: None }
    }

    /// Whether the wake word model should look at the next chunk.
    pub fn listening(&self) -> (b: bool)
        ensures
            b == self.state is Normal,
    {
        match self.state {
            EspState::Normal => true,
            _ => false,
        }
    }

    /// How many samples the recording holds, if one is running.
    pub fn recorded(&self) -> (n: Option<usize>)
        ensures
            match self.state {
                EspState::Recording { buffered, .. } => n == Some(buffered),
                _ => n is None,
            },
    {
        match self.state {
            EspState::Recording { buffered, .. } => Some(buffered),
            _ => None,
        }
    }

    /// Takes a chunk at time `now_ms`. Listening: a wake word (more than
    /// 5000 ms after the last one) starts a recording with the chunk.
    /// Recording: the chunk is appended; the recording ends after 5000 ms,
    /// or when a full half-second window has been quiet for more than
    /// 1000 ms. Cooling down: listening resumes when the cooldown is over.
    pub fn step(&mut self, chunk: &EspChunk, now_ms: u64) -> (a: EspAction)
        ensures
            esp_step(*old(self), *final(self), *chunk, now_ms, a),
    {
        match self.state {
            EspState::Normal => {
                if !chunk.detected {
                    return EspAction::Idle;
                }
                match self.last_detection_ms {
                    Some(t) => {
                        if now_ms.saturating_sub(t) < COOLDOWN_MS {
                            return EspAction::Idle;
                        }
                    },
                    None => {},
                }
                self.last_detection_ms = Some(now_ms);
                self.state = EspState::Recording { buffered: chunk.samples, start_ms: now_ms, last_speech_ms: now_ms };
                EspAction::StartRecording
            },
            EspState::Recording { buffered, start_ms, last_speech_ms } => {
                let total = buffered.saturating_add(chunk.samples);
                let elapsed = now_ms.saturating_sub(start_ms);
                let mut last = last_speech_ms;
                let stop = if elapsed >= MAX_RECORDING_MS {
                    true
                } else if total >= WINDOW_SAMPLES {
                    if chunk.speech {
                        last = now_ms;
                    }
                    now_ms.saturating_sub(last) > SILENCE_TIMEOUT_MS
                } else {
                    false
                };
                if stop {
                    let keep = if total > TRIM_SAMPLES {
                        total - TRIM_SAMPLES
                    } else {
                        total
                    };
                    self.state = EspState::Transcribing;
                    EspAction::FinishRecording { keep }
                } else {
                    self.state = EspState::Recording { buffered: total, start_ms, last_speech_ms: last };
                    EspAction::KeepRecording
                }
            },
            EspState::Transcribing => EspAction::Idle,
            EspState::Cooldown { until_ms } => {
                if now_ms >= until_ms {
                    self.state = EspState::Normal;
                    EspAction::Resume
                } else {
                    EspAction::Idle
                }
            },
        }
    }

    /// The transcription finished at `now_ms`: audio is ignored for the
    /// next 5000 ms.
    pub fn transcription_finished(&mut self, now_ms: u64)
        ensures
            final(self).state == (EspState::Cooldown { until_ms: now_ms.saturating_add(COOLDOWN_MS) }),
            final(self).last_detection_ms == old(self).last_detection_ms,
    {
        self.state = EspState::Cooldown { until_ms: now_ms.saturating_add(COOLDOWN_MS) };
    }
}

/// What happens on an ESP32 connection: a chunk taken by `EspSession::step`
/// with the action it gave, or a transcription that finished (reported by
/// `EspSession::transcription_finished` after the result was sent).
pub enum EspEvent {
    Chunk { chunk: EspChunk, now_ms: u64, action: EspAction },
    Transcribed { now_ms: u64, success: bool },
}

/// The bytes a connection writes for an event: `0x01` when a recording
/// starts, `0x02` when it ends, and the result byte after a transcription.
pub open spec fn event_bytes(e: EspEvent) -> Seq<u8> {
    match e {
        EspEvent::Chunk { action, .. } => match action {
            EspAction::StartRecording => seq![1u8],
            EspAction::FinishRecording { .. } => seq![2u8],
            _ => seq![],
        },
        EspEvent::Transcribed { success, .. } => seq![if success {
            3u8
        } else {
            4u8
        }],
    }
}

/// The bytes written for the first `n` events.
pub open spec fn trace_bytes(events: Seq<EspEvent>, n: int) -> Seq<u8>
    decreases n,
{
    if n <= 0 {
        seq![]
    } else {
        trace_bytes(events, n - 1) + event_bytes(events[n - 1])
    }
}

/// The sessions of a connection follow its events: each chunk is a step,
/// and a transcription finishes only while one is running.
pub open spec fn esp_trace(states: Seq<EspSession>, events: Seq<EspEvent>) -> bool {
    &&& states.len() == events.len() + 1
    &&& forall|i: int|
        0 <= i < events.len() ==> match #[trigger] events[i] {
            EspEvent::Chunk { chunk, now_ms, action } => esp_step(states[i], states[i + 1], chunk, now_ms, action),
            EspEvent::Transcribed { now_ms, .. } => {
                &&& states[i].state is Transcribing
                &&& states[i + 1].state == (EspState::Cooldown { until_ms: now_ms.saturating_add(COOLDOWN_MS) })
            },
        }
}

/// Bytes that follow the protocol: `0x01`, `0x02`, then `0x03` or `0x04`,
/// over and over.
pub open spec fn esp_protocol(bs: Seq<u8>) -> bool {
    forall|i: int|
        0 <= i < bs.len() ==> (if i % 3 == 0 {
            #[trigger] bs[i] == 1u8
        } else if i % 3 == 1 {
            bs[i] == 2u8
        } else {
            bs[i] == 3u8 || bs[i] == 4u8
        })
}

/// How far into the protocol a state is: listening or cooling down,
/// recording, or transcribing.
pub open spec fn esp_phase(st: EspState) -> int {
    match st {
        EspState::Recording { .. } => 1,
        EspState::Transcribing => 2,
        _ => 0,
    }
}

proof fn lemma_protocol_push(bs: Seq<u8>, x: u8)
    requires
        esp_protocol(bs),
        bs.len() % 3 == 0 ==> x == 1u8,
        bs.len() % 3 == 1 ==> x == 2u8,
        bs.len() % 3 == 2 ==> x == 3u8 || x == 4u8,
    ensures
        esp_protocol(bs.push(x)),
{
    let nb = bs.push(x);
    assert forall|i: int| 0 <= i < nb.len() implies (if i % 3 == 0 {
        #[trigger] nb[i] == 1u8
    } else if i % 3 == 1 {
        nb[i] == 2u8
    } else {
        nb[i] == 3u8 || nb[i] == 4u8
    }) by {
        if i < bs.len() {
            assert(nb[i] == bs[i]);
        }
    }
}

/// An ESP32 connection writes `0x01` when a wake word starts a recording,
/// `0x02` when the recording ends, then `0x03` or `0x04` for the result, and
/// nothing else: whatever chunks arrive, the bytes written so far are a
/// prefix of that cycle, and the session's state tells where in it they
/// stand.
pub proof fn lemma_esp_protocol(states: Seq<EspSession>, events: Seq<EspEvent>, n: int)
    requires
        esp_trace(states, events),
        states[0].state is Normal,
        0 <= n <= events.len(),
    ensures
        esp_protocol(trace_bytes(events, n)),
        trace_bytes(events, n).len() % 3 == esp_phase(states[n].state),
    decreases n,
{
    if n > 0 {
        lemma_esp_protocol(states, events, n - 1);
        let prev = trace_bytes(events, n - 1);
        let e = events[n - 1];
        let st = states[n - 1];
        assert(trace_bytes(events, n) == prev + event_bytes(e));
        match e {
            EspEvent::Chunk { chunk, now_ms, action } => {
                assert(esp_step(st, states[n], chunk, now_ms, action));
                match action {
                    EspAction::StartRecording => {
                        lemma_protocol_push(prev, 1u8);
                        assert(prev + seq![1u8] =~= prev.push(1u8));
                    },
                    EspAction::FinishRecording { .. } => {
                        lemma_protocol_push(prev, 2u8);
                        assert(prev + seq![2u8] =~= prev.push(2u8));
                    },
                    _ => {
                        assert(prev + seq![] =~= prev);
                    },
                }
            },
            EspEvent::Transcribed { success, .. } => {
                let x: u8 = if success {
                    3u8
                } else {
                    4u8
                };
                lemma_protocol_push(prev, x);
                assert(prev + seq![x] =~= prev.push(x));
            },
        }
    }
}

// ---------------------------------------------------------------------------
// Push-to-talk clients
// ---------------------------------------------------------------------------

/// The message that starts a recording.
pub const PTT_START: u8 = 0x10;
/// The message that carries samples.
pub const PTT_DATA: u8 = 0x11;
/// The message that ends a recording.
pub const PTT_END: u8 = 0x12;

/// What to do with a push-to-talk message.
pub enum PttAction {
    /// Clear the recording and play the awake sound.
    StartRecording,
    /// Read the samples that follow and append them.
    ReadSamples,
    /// Nothing was recorded: answer failure.
    RejectEmpty,
    /// Clean, transcribe and answer the recording, then clear it.
    Transcribe,
    /// An unknown message: close the connection.
    Disconnect,
}

/// A push-to-talk session: how many samples are recorded.
pub struct PttSession {
    pub buffered: usize,
}

/// A message byte of a push-to-talk client: a start clears the recording,
/// data keeps it (its samples follow), an end is answered (rejected when
/// nothing was recorded, else transcribed) and clears it, and any other byte
/// closes the connection.
pub open spec fn ptt_message(old: PttSession, new: PttSession, byte: u8, a: PttAction) -> bool {
    &&& byte == PTT_START ==> a is StartRecording && new.buffered == 0
    &&& byte == PTT_DATA ==> a is ReadSamples && new.buffered == old.buffered
    &&& byte == PTT_END ==> if old.buffered == 0 {
        a is RejectEmpty && new.buffered == 0
    } else {
        a is Transcribe && new.buffered == 0
    }
    &&& byte != PTT_START && byte != PTT_DATA && byte != PTT_END ==> a is Disconnect && new.buffered
        == old.buffered
}

/// Samples added to a push-to-talk recording (the count saturates).
pub open spec fn ptt_samples(old: PttSession, new: PttSession, n: usize) -> bool {
    new.buffered == (if old.buffered + n <= usize::MAX {
        (old.buffered + n) as usize
    } else {
        usize::MAX
    })
}

/// What happens on a push-to-talk connection: a message with the action
/// it gave, or samples read after a data message.
pub enum PttEvent {
    Message { byte: u8, action: PttAction },
    Samples { count: usize },
}

/// The sessions of a connection follow its events.
pub open spec fn ptt_trace(states: Seq<PttSession>, events: Seq<PttEvent>) -> bool {
    &&& states.len() == events.len() + 1
    &&& forall|i: int|
        0 <= i < events.len() ==> match #[trigger] events[i] {
            PttEvent::Message { byte, action } => ptt_message(states[i], states[i + 1], byte, action),
            PttEvent::Samples { count } => ptt_samples(states[i], states[i + 1], count),
        }
}

/// The samples recorded since the last start or end message among the
/// first `n` events (saturating at `usize::MAX`).
pub open spec fn recorded_since(events: Seq<PttEvent>, n: int) -> int
    decreases n,
{
    if n <= 0 {
        0
    } else {
        match events[n - 1] {
            PttEvent::Message { byte, .. } => if byte == PTT_START || byte == PTT_END {
                0
            } else {
                recorded_since(events, n - 1)
            },
            PttEvent::Samples { count } => if recorded_since(events, n - 1) + count <= usize::MAX {
                recorded_since(events, n - 1) + count
            } else {
                usize::MAX as int
            },
        }
    }
}

/// How many of the first `n` events are end messages.
pub open spec fn ends_of(events: Seq<PttEvent>, n: int) -> int
    decreases n,
{
    if n <= 0 {
        0
    } else {
        ends_of(events, n - 1) + match events[n - 1] {
            PttEvent::Message { byte, .. } => if byte == PTT_END {
                1int
            } else {
                0int
            },
            _ => 0int,
        }
    }
}

/// How many of the first `n` events are answered with one result byte.
pub open spec fn answers_of(events: Seq<PttEvent>, n: int) -> int
    decreases n,
{
    if n <= 0 {
        0
    } else {
        answers_of(events, n - 1) + match events[n - 1] {
            PttEvent::Message { action, .. } => match action {
                PttAction::RejectEmpty => 1int,
                PttAction::Transcribe => 1int,
                _ => 0int,
            },
            _ => 0int,
        }
    }
}

/// A push-to-talk connection answers each end message exactly once, and
/// what it holds is what was recorded since the last start or end: so an
/// end is rejected exactly when no sample arrived since the last start or
/// end.
pub proof fn lemma_ptt_answers(states: Seq<PttSession>, events: Seq<PttEvent>, n: int)
    requires
        ptt_trace(states, events),
        states[0].buffered == 0,
        0 <= n <= events.len(),
    ensures
        answers_of(events, n) == ends_of(events, n),
        states[n].buffered == recorded_since(events, n),
    decreases n,
{
    if n > 0 {
        lemma_ptt_answers(states, events, n - 1);
        match events[n - 1] {
            PttEvent::Message { byte, action } => {
                assert(ptt_message(states[n - 1], states[n], byte, action));
            },
            PttEvent::Samples { count } => {
                assert(ptt_samples(states[n - 1], states[n], count));
            },
        }
    }
}

impl PttSession {
    /// A session without a recording.
    pub fn new() -> (s: PttSession)
        ensures
            s.buffered == 0,
    {
        PttSession { buffered: 0 }
    }

    /// Decides on a message byte (see `ptt_message`).
    pub fn on_message(&mut self, byte: u8) -> (a: PttAction)
        ensures
            ptt_message(*old(self), *final(self), byte, a),
    {
        if byte == PTT_START {
            self.buffered = 0;
            PttAction::StartRecording
        } else if byte == PTT_DATA {
            PttAction::ReadSamples
        } else if byte == PTT_END {
            if self.buffered == 0 {
                PttAction::RejectEmpty
            } else {
                self.buffered = 0;
                PttAction::Transcribe
            }
        } else {
            PttAction::Disconnect
        }
    }

    /// Samples were appended to the recording.
    pub fn on_samples(&mut self, n: usize)
        ensures
            ptt_samples(*old(self), *final(self), n),
    {
        self.buffered = self.buffered.saturating_add(n);
    }
}

} // verus!
