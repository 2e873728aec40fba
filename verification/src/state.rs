//! The session: the open packets, the connection endpoint as entered, and
//! the decision behind each top-level action. The session never touches a
//! socket, a dialog or the file system itself; each action that needs one
//! is handed back to the caller as a [`StateAction`].

use vstd::prelude::*;

use crate::packet::{
    model_wf, pv_msg_in_range, pv_update_rel, reindexed, PVAction, PVMessage, PacketField,
    PacketModel, PacketView,
};

verus! {

/// One top-level step of the session.
#[derive(Debug, Clone)]
pub enum Message {
    /// Append a fresh packet.
    AddPacket,
    /// Remove the packet at the index and renumber the rest.
    RemovePacket(usize),
    /// Forward an editing step to the packet at the index.
    PVMessage(usize, PVMessage),
    /// Replace the host text.
    IpEntry(String),
    /// Replace the port text.
    PortEntry(String),
    /// Open a connection to the entered endpoint, dropping any old one.
    Connect,
    /// Drop the connection.
    Disconnect,
    /// Encode the packet at the index and send it.
    SendPacket(usize),
    /// Read from the connection into the packet at the index.
    RecievePacket(usize),
    /// Load a persisted packet.
    OpenPacket,
}

/// What the session asks its surroundings to do after a step: everything
/// here needs a socket, a dialog or the file system.
#[derive(Debug, Clone, Copy, PartialEq, Eq, Structural)]
pub enum StateAction {
    /// Nothing left to do.
    Idle,
    /// Let the operator pick a source file for a blob field: packet index,
    /// then field index. The chosen path comes back through `DataEntry`.
    PickFile(usize, usize),
    /// Persist the document of the packet at the index.
    SavePacket(usize),
    /// Measure the blob source of the field (packet index, field index)
    /// and hand the byte count to its sizing method's `update`.
    SyncFileSize(usize, usize),
    /// Drop any live connection, then connect to the entered endpoint.
    ConnectRequested,
    /// Drop the connection.
    DisconnectRequested,
    /// Encode the packet at the index and send the bytes.
    SendRequested(usize),
    /// Read from the connection and decode into the packet at the index.
    ReceiveRequested(usize),
    /// Let the operator pick a document and load it.
    OpenRequested,
}

/// The session: the open packets and the endpoint text. The connection
/// itself lives with the caller, which owns the socket.
pub struct State {
    pub packet_views: Vec<PacketView>,
    pub current_ip: String,
    pub current_port: String,
}

/// The mathematical shape of a [`State`].
pub struct StateModel {
    pub packets: Seq<PacketModel>,
    pub ip: Seq<char>,
    pub port: Seq<char>,
}

/// The views of a run of packets.
pub open spec fn packets_model(s: Seq<PacketView>) -> Seq<PacketModel> {
    Seq::new(s.len(), |i: int| s[i]@)
}

impl View for State {
    type V = StateModel;

    open spec fn view(&self) -> StateModel {
        StateModel {
            packets: packets_model(self.packet_views@),
            ip: self.current_ip@,
            port: self.current_port@,
        }
    }
}

/// Whether the indices a message carries name existing packets and fields.
pub open spec fn state_msg_in_range(m: StateModel, msg: Message) -> bool {
    match msg {
        Message::RemovePacket(i) => i < m.packets.len(),
        Message::PVMessage(i, pv) => i < m.packets.len() && pv_msg_in_range(
            m.packets[i as int],
            pv,
        ),
        Message::SendPacket(i) => i < m.packets.len(),
        Message::RecievePacket(i) => i < m.packets.len(),
        _ => true,
    }
}

/// `p` with its position rewritten to `k`.
pub open spec fn packet_reindexed(p: PacketModel, k: int) -> PacketModel {
    PacketModel { index: k, ..p }
}

/// `p` taken into the session at position `k`: its own position rewritten,
/// and every field renumbered to its position, so both position invariants
/// hold of it whatever it held before.
pub open spec fn packet_adopted(p: PacketModel, k: int) -> PacketModel {
    PacketModel {
        index: k,
        fields: Seq::new(p.fields.len(), |j: int| reindexed(p.fields[j], j)),
        ..p
    }
}

/// `m` with packet `i` removed and every remaining packet renumbered.
pub open spec fn with_packet_removed(m: StateModel, i: int) -> StateModel {
    StateModel {
        packets: Seq::new(
            (m.packets.len() - 1) as nat,
            |j: int|
                packet_reindexed(
                    m.packets[
                        if j < i {
                            j
                        } else {
                            j + 1
                        }
                    ],
                    j,
                ),
        ),
        ..m
    }
}

/// A packet-level action, seen from the session: tagged with the packet's
/// index.
pub open spec fn lift_pv_action(i: usize, pa: PVAction) -> StateAction {
    match pa {
        PVAction::Idle => StateAction::Idle,
        PVAction::PickFile(f) => StateAction::PickFile(i, f),
        PVAction::SaveRequested => StateAction::SavePacket(i),
        PVAction::SyncFileSize(f) => StateAction::SyncFileSize(i, f),
    }
}

/// The packet-level action inside a session-level one.
pub open spec fn unlift_pv_action(a: StateAction) -> PVAction {
    match a {
        StateAction::PickFile(_, f) => PVAction::PickFile(f),
        StateAction::SavePacket(_) => PVAction::SaveRequested,
        StateAction::SyncFileSize(_, f) => PVAction::SyncFileSize(f),
        _ => PVAction::Idle,
    }
}

/// What one session step does: session `m` stepped by `msg` becomes `m2`
/// (with `wf2` saying its packet positions are contiguous), asking its
/// surroundings for `a`.
pub open spec fn state_update_rel(
    m: StateModel,
    msg: Message,
    m2: StateModel,
    wf2: bool,
    a: StateAction,
) -> bool {
    match msg {
            Message::AddPacket => m2 == (StateModel {
                packets: m.packets.push(
                    PacketModel {
                        index: m.packets.len() as int,
                        label: Seq::<char>::empty(),
                        receive: false,
                        fields: Seq::empty(),
                    },
                ),
                ..m
            }) && a == StateAction::Idle,
            Message::RemovePacket(i) => m2 == with_packet_removed(m, i as int)
                && a == StateAction::Idle && wf2,
            Message::PVMessage(i, pv) => {
                &&& m2 == (StateModel {
                    packets: m.packets.update(i as int, m2.packets[i as int]),
                    ..m
                })
                &&& pv_update_rel(
                    m.packets[i as int],
                    pv,
                    m2.packets[i as int],
                    unlift_pv_action(a),
                )
                &&& a == lift_pv_action(i, unlift_pv_action(a))
            },
            Message::IpEntry(s) => m2 == (StateModel { ip: s@, ..m }) && a
                == StateAction::Idle,
            Message::PortEntry(s) => m2 == (StateModel { port: s@, ..m }) && a
                == StateAction::Idle,
            Message::Connect => m2 == m && a == StateAction::ConnectRequested,
            Message::Disconnect => m2 == m && a
                == StateAction::DisconnectRequested,
            Message::SendPacket(i) => m2 == m && a == StateAction::SendRequested(
                i,
            ),
            Message::RecievePacket(i) => m2 == m && a
                == StateAction::ReceiveRequested(i),
            Message::OpenPacket => m2 == m && a == StateAction::OpenRequested,
    }
}

impl State {
    /// The position invariant of the packet list, the mirror of the field
    /// invariant inside each packet.
    pub open spec fn wf(self) -> bool {
        forall|i: int|
            0 <= i < self@.packets.len() ==> (#[trigger] self@.packets[i]).index == i
    }

    /// Appends a fresh, empty packet whose position is the current packet
    /// count.
    pub fn add_packet(&mut self)
        ensures
            final(self)@ == (StateModel {
                packets: old(self)@.packets.push(
                    PacketModel {
                        index: old(self)@.packets.len() as int,
                        label: Seq::<char>::empty(),
                        receive: false,
                        fields: Seq::empty(),
                    },
                ),
                ..old(self)@
            }),
            old(self).wf() ==> final(self).wf(),
    {
        let p = PacketView::new(self.packet_views.len());
        self.packet_views.push(p);
        proof {
            assert(final(self)@.packets =~= old(self)@.packets.push(
                PacketModel {
                    index: old(self)@.packets.len() as int,
                    label: Seq::<char>::empty(),
                    receive: false,
                    fields: Seq::empty(),
                },
            ));
        }
    }

    /// Appends a packet that arrived from outside — a loaded document —
    /// rewriting its position to the end of the list and renumbering its
    /// fields to their positions, so both position invariants survive
    /// whatever the document said.
    pub fn add_loaded_packet(&mut self, p: PacketView)
        ensures
            final(self)@ == (StateModel {
                packets: old(self)@.packets.push(
                    packet_adopted(p@, old(self)@.packets.len() as int),
                ),
                ..old(self)@
            }),
            model_wf(packet_adopted(p@, old(self)@.packets.len() as int)),
            old(self).wf() ==> final(self).wf(),
    {
        let mut q = p;
        let n = q.fields.len();
        let mut fields: Vec<PacketField> = Vec::new();
        let mut j: usize = 0;
        while j < n
            invariant
                n == q.fields@.len(),
                j <= n,
                fields@.len() == j,
                forall|k: int|
                    0 <= k < j ==> #[trigger] fields@[k]@ == reindexed(q@.fields[k], k),
            decreases n - j,
        {
            let mut f = q.fields[j].duplicate();
            f.index = j;
            fields.push(f);
            j = j + 1;
        }
        q.fields = fields;
        q.index = self.packet_views.len();
        self.packet_views.push(q);
        proof {
            assert(q@.fields =~= packet_adopted(p@, old(self)@.packets.len() as int).fields);
            assert(final(self)@.packets =~= old(self)@.packets.push(
                packet_adopted(p@, old(self)@.packets.len() as int),
            ));
        }
    }

    /// Applies one session step and reports what remains to be done
    /// outside the session.
    pub fn update(&mut self, msg: Message) -> (a: StateAction)
        requires
            state_msg_in_range(old(self)@, msg),
        ensures
            state_update_rel(old(self)@, msg, final(self)@, final(self).wf(), a),
    {
        match msg {
            Message::AddPacket => {
                self.add_packet();
                StateAction::Idle
            },
            Message::RemovePacket(i) => {
                self.remove_packet(i);
                StateAction::Idle
            },
            Message::PVMessage(i, pv) => {
                let mut p = self.packet_views.remove(i);
                let pa = p.update(pv);
                self.packet_views.insert(i, p);
                let a = match pa {
                    PVAction::Idle => StateAction::Idle,
                    PVAction::PickFile(f) => StateAction::PickFile(i, f),
                    PVAction::SaveRequested => StateAction::SavePacket(i),
                    PVAction::SyncFileSize(f) => StateAction::SyncFileSize(i, f),
                };
                proof {
                    assert(final(self)@.packets =~= old(self)@.packets.update(
                        i as int,
                        final(self)@.packets[i as int],
                    ));
                }
                a
            },
            Message::IpEntry(s) => {
                self.current_ip = s;
                StateAction::Idle
            },
            Message::PortEntry(s) => {
                self.current_port = s;
                StateAction::Idle
            },
            Message::Connect => StateAction::ConnectRequested,
            Message::Disconnect => StateAction::DisconnectRequested,
            Message::SendPacket(i) => StateAction::SendRequested(i),
            Message::RecievePacket(i) => StateAction::ReceiveRequested(i),
            Message::OpenPacket => StateAction::OpenRequested,
        }
    }

    /// Removes the packet at `index` and renumbers every remaining packet
    /// to its position.
    fn remove_packet(&mut self, index: usize)
        requires
            index < old(self)@.packets.len(),
        ensures
            final(self)@ == with_packet_removed(old(self)@, index as int),
            final(self).wf(),
    {
        let ghost base = old(self)@.packets.remove(index as int);
        let _ = self.packet_views.remove(index);
        proof {
            assert(packets_model(self.packet_views@) =~= base);
            assert forall|k: int| 0 <= k < base.len() implies #[trigger] self.packet_views@[k]@
                == base[k] by {
                assert(packets_model(self.packet_views@)[k] == self.packet_views@[k]@);
            }
        }
        let n = self.packet_views.len();
        let mut j: usize = 0;
        while j < n
            invariant
                n == self.packet_views@.len(),
                n == base.len(),
                j <= n,
                self.current_ip == old(self).current_ip,
                self.current_port == old(self).current_port,
                forall|k: int|
                    0 <= k < j ==> #[trigger] self.packet_views@[k]@ == packet_reindexed(
                        base[k],
                        k,
                    ),
                forall|k: int| j <= k < n ==> #[trigger] self.packet_views@[k]@ == base[k],
            decreases n - j,
        {
            let ghost pre = self.packet_views@;
            let mut p = self.packet_views.remove(j);
            proof {
                assert(pre[j as int]@ == base[j as int]);
            }
            p.index = j;
            let ghost pv = p@;
            self.packet_views.insert(j, p);
            proof {
                let now = self.packet_views@;
                assert(pv == packet_reindexed(base[j as int], j as int));
                assert forall|k: int| 0 <= k < n implies now[k] == if k == j {
                    p
                } else {
                    pre[k]
                } by {
                    assert(pre.remove(j as int) =~= pre.subrange(0, j as int) + pre.subrange(
                        j + 1,
                        pre.len() as int,
                    ));
                }
            }
            j = j + 1;
        }
        proof {
            assert forall|k: int| 0 <= k < base.len() implies packets_model(self.packet_views@)[k]
                == with_packet_removed(old(self)@, index as int).packets[k] by {
                assert(self.packet_views@[k]@ == packet_reindexed(base[k], k));
            }
            assert(packets_model(self.packet_views@) =~= with_packet_removed(
                old(self)@,
                index as int,
            ).packets);
        }
    }
}

impl Default for State {
    /// A session with no packets, empty endpoint text, and no connection.
    fn default() -> (s: State)
        ensures
            s@ == (StateModel {
                packets: Seq::<PacketModel>::empty(),
                ip: Seq::<char>::empty(),
                port: Seq::<char>::empty(),
            }),
            s.wf(),
    {
        let s = State {
            packet_views: Vec::new(),
            current_ip: String::new(),
            current_port: String::new(),
        };
        proof {
            assert(s@.packets =~= Seq::<PacketModel>::empty());
        }
        s
    }
}

} // verus!
