//! A private stream without a venue: queued sockets, queued snapshots, numbered keys.

use vstd::prelude::*;

use crate::text::{decimal_text, law_decimal_is_injective, push_number};
use crate::venue::userdata::{
    ListenKey, PositionSnapshot, SnapshotModel, UserDataConnection, UserDataError, UserDataPoll,
};

verus! {

/// What a [`Script`] still has to hand out, and how often it was asked.
pub struct ScriptModel {
    /// The events of the sockets still to be opened.
    pub connections: Seq<Seq<UserDataPoll>>,
    /// The snapshots still to be taken.
    pub snapshots: Seq<SnapshotModel>,
    /// How many keys were made.
    pub keys_created: u64,
    /// How often a key was kept alive.
    pub keepalives: u64,
}

/// A scripted private stream.
pub struct Script {
    connections: Vec<Vec<UserDataPoll>>,
    snapshots: Vec<PositionSnapshot>,
    keys_created: u64,
    keepalives: u64,
}

spec fn event_lists(connections: Seq<Vec<UserDataPoll>>) -> Seq<Seq<UserDataPoll>> {
    Seq::new(connections.len(), |i: int| connections[i]@)
}

spec fn snapshot_models(snapshots: Seq<PositionSnapshot>) -> Seq<SnapshotModel> {
    Seq::new(snapshots.len(), |i: int| snapshots[i]@)
}

impl View for Script {
    type V = ScriptModel;

    closed spec fn view(&self) -> ScriptModel {
        ScriptModel {
            connections: event_lists(self.connections@),
            snapshots: snapshot_models(self.snapshots@),
            keys_created: self.keys_created,
            keepalives: self.keepalives,
        }
    }
}

impl Script {
    /// A script with nothing queued.
    pub fn new() -> (r: Script)
        ensures
            r@ == (ScriptModel {
                connections: Seq::empty(),
                snapshots: Seq::empty(),
                keys_created: 0,
                keepalives: 0,
            }),
    {
        let r = Script {
            connections: Vec::new(),
            snapshots: Vec::new(),
            keys_created: 0,
            keepalives: 0,
        };
        assert(r@.connections =~= Seq::empty());
        assert(r@.snapshots =~= Seq::empty());
        r
    }

    /// Queues the events of one socket.
    pub fn queue_connection(&mut self, polls: Vec<UserDataPoll>)
        ensures
            final(self)@ == (ScriptModel {
                connections: old(self)@.connections.push(polls@),
                ..old(self)@
            }),
    {
        self.connections.push(polls);
        assert(self@.connections =~= old(self)@.connections.push(polls@));
    }

    /// Queues a snapshot.
    pub fn queue_snapshot(&mut self, snapshot: PositionSnapshot)
        ensures
            final(self)@ == (ScriptModel {
                snapshots: old(self)@.snapshots.push(snapshot@),
                ..old(self)@
            }),
    {
        self.snapshots.push(snapshot);
        assert(self@.snapshots =~= old(self)@.snapshots.push(snapshot@));
    }

    /// Makes a key, `sim-key-` and its number, counted from one.
    pub fn create_key(&mut self) -> (r: ListenKey)
        requires
            old(self)@.keys_created < u64::MAX,
        ensures
            final(self)@ == (ScriptModel {
                keys_created: (old(self)@.keys_created + 1) as u64,
                ..old(self)@
            }),
            r@ == "sim-key-"@ + decimal_text(final(self)@.keys_created as nat),
    {
        self.keys_created = self.keys_created + 1;
        let mut text: String = "sim-key-".to_owned();
        push_number(&mut text, self.keys_created);
        ListenKey::new(text)
    }

    /// Counts one keeping-alive.
    pub fn keep_key(&mut self)
        requires
            old(self)@.keepalives < u64::MAX,
        ensures
            final(self)@ == (ScriptModel {
                keepalives: (old(self)@.keepalives + 1) as u64,
                ..old(self)@
            }),
    {
        self.keepalives = self.keepalives + 1;
    }

    /// Opens the next queued socket; one without events where none is queued.
    pub fn open_connection(&mut self) -> (r: ScriptedConnection)
        ensures
            old(self)@.connections.len() > 0 ==> r@ == old(self)@.connections[0] && final(self)@ == (
            ScriptModel { connections: old(self)@.connections.drop_first(), ..old(self)@ }),
            old(self)@.connections.len() == 0 ==> r@ == Seq::<UserDataPoll>::empty() && final(self)@
                == old(self)@,
    {
        if self.connections.len() == 0 {
            ScriptedConnection { script: Vec::new() }
        } else {
            let script: Vec<UserDataPoll> = self.connections.remove(0);
            assert(self@.connections =~= old(self)@.connections.drop_first());
            ScriptedConnection { script }
        }
    }

    /// Takes the next queued snapshot; the last one is given again and again. Fails where none was
    /// ever queued.
    pub fn take_snapshot(&mut self) -> (r: Result<PositionSnapshot, UserDataError>)
        ensures
            match r {
                Ok(snapshot) => old(self)@.snapshots.len() > 0 && snapshot@
                    == old(self)@.snapshots[0],
                Err(e) => old(self)@.snapshots.len() == 0 && (e matches UserDataError::Snapshot(
                    text,
                ) && text@ == "no scripted snapshot"@),
            },
            final(self)@ == (ScriptModel {
                snapshots: if old(self)@.snapshots.len() > 1 {
                    old(self)@.snapshots.drop_first()
                } else {
                    old(self)@.snapshots
                },
                ..old(self)@
            }),
    {
        if self.snapshots.len() > 1 {
            let snapshot: PositionSnapshot = self.snapshots.remove(0);
            assert(self@.snapshots =~= old(self)@.snapshots.drop_first());
            Ok(snapshot)
        } else if self.snapshots.len() == 1 {
            Ok(self.snapshots[0].clone())
        } else {
            Err(UserDataError::Snapshot("no scripted snapshot".to_owned()))
        }
    }

    /// How many keys were made.
    pub fn keys_created(&self) -> (r: u64)
        ensures
            r == self@.keys_created,
    {
        self.keys_created
    }

    /// How often a key was kept alive.
    pub fn keepalives(&self) -> (r: u64)
        ensures
            r == self@.keepalives,
    {
        self.keepalives
    }
}

impl Default for Script {
    fn default() -> (r: Script)
        ensures
            r@ == (ScriptModel {
                connections: Seq::empty(),
                snapshots: Seq::empty(),
                keys_created: 0,
                keepalives: 0,
            }),
    {
        Script::new()
    }
}

/// A scripted socket: its queued events in order, then nothing.
pub struct ScriptedConnection {
    script: Vec<UserDataPoll>,
}

impl View for ScriptedConnection {
    type V = Seq<UserDataPoll>;

    /// The events still to come.
    closed spec fn view(&self) -> Seq<UserDataPoll> {
        self.script@
    }
}

impl UserDataConnection for ScriptedConnection {
    fn poll(&mut self) -> (r: UserDataPoll)
        ensures
            old(self)@.len() > 0 ==> r == old(self)@[0] && final(self)@ == old(self)@.drop_first(),
            old(self)@.len() == 0 ==> r == UserDataPoll::Idle && final(self)@ == old(self)@,
    {
        if self.script.len() == 0 {
            UserDataPoll::Idle
        } else {
            let next: UserDataPoll = self.script.remove(0);
            assert(self.script@ =~= old(self)@.drop_first());
            next
        }
    }
}

/// Keys with different numbers are different keys.
pub proof fn law_scripted_keys_differ(m: u64, n: u64)
    requires
        m != n,
    ensures
        "sim-key-"@ + decimal_text(m as nat) != "sim-key-"@ + decimal_text(n as nat),
{
    let head = "sim-key-"@;
    let x = head + decimal_text(m as nat);
    let y = head + decimal_text(n as nat);
    if x == y {
        assert(x.skip(head.len() as int) =~= decimal_text(m as nat));
        assert(y.skip(head.len() as int) =~= decimal_text(n as nat));
        law_decimal_is_injective(m as nat, n as nat);
    }
}

} // verus!
