//! Registration of a newly committed local version into the version ledger.
//!
//! Registration alternates store queries, the node's clock and the ledger with
//! decisions. The decisions live here as a state machine: the caller performs
//! each [`RegistrarAction`] and hands the outcome back as a [`RegistrarEvent`].
use vstd::prelude::*;

use crate::change::{CrsqlDbVersion, CrsqlSeq};

verus! {

/// A logical timestamp of the node's hybrid clock.
#[derive(Clone, Copy, Debug, Default, PartialEq, Eq, Structural, PartialOrd, Ord, Hash)]
pub struct Timestamp(pub u64);

/// What a successful registration yields: the version, its last sequence
/// number, its timestamp, and the ledger snapshot that holds it.
pub struct InsertChangesInfo<S> {
    pub db_version: CrsqlDbVersion,
    pub last_seq: CrsqlSeq,
    pub ts: Timestamp,
    pub snap: S,
}

/// A fault of the store, tagged with the local writer and, where known, the
/// version being registered.
pub enum ChangeError<E> {
    Rusqlite { source: E, actor_id: Option<[u8; 16]>, version: Option<CrsqlDbVersion> },
}

/// How a registration ended.
pub enum Registration<S> {
    /// The store holds no change for the peeked version.
    NoChange,
    /// The store holds a timestamp but no sequenced change: nothing registered.
    TimestampWithoutSeq { db_version: CrsqlDbVersion, ts: Timestamp },
    /// The version was registered into the ledger.
    Registered(InsertChangesInfo<S>),
}

/// Where a registration stands: what it waits for.
#[derive(Clone, Copy, Debug, PartialEq, Eq, Structural)]
pub enum RegistrarState {
    AwaitDbVersion,
    AwaitVersionInfo { db_version: CrsqlDbVersion },
    AwaitTimestamp { db_version: CrsqlDbVersion, last_seq: CrsqlSeq },
    AwaitInsert { db_version: CrsqlDbVersion, last_seq: CrsqlSeq, ts: Timestamp },
    Finished,
}

/// The outcome of an action, handed back by the caller.
pub enum RegistrarEvent<S, E> {
    /// The next version the store would assign.
    NextDbVersion(CrsqlDbVersion),
    /// The largest sequence number and timestamp the store holds for the
    /// version under the local writer.
    VersionInfo { last_seq: Option<CrsqlSeq>, ts: Option<Timestamp> },
    /// A freshly minted timestamp of the node's clock.
    NewTimestamp(Timestamp),
    /// The ledger snapshot after `[db_version, db_version]` was inserted.
    Inserted(S),
    /// A query or the ledger insertion failed.
    Failed(E),
}

/// What the caller is to do next.
pub enum RegistrarAction<S, E> {
    /// Peek the next version the store would assign.
    PeekNextDbVersion,
    /// Ask for the largest sequence number and timestamp of the version.
    QueryVersionInfo { db_version: CrsqlDbVersion },
    /// Mint a new timestamp from the node's clock.
    MintTimestamp,
    /// Take a ledger snapshot and insert the single-version range
    /// `[db_version, db_version]` into it.
    InsertDbVersion { db_version: CrsqlDbVersion },
    /// The registration is over.
    Done(Result<Registration<S>, ChangeError<E>>),
}

/// A registration in progress for the local writer `actor_id`.
pub struct LocalChangeRegistrar {
    pub actor_id: [u8; 16],
    pub state: RegistrarState,
}

/// Whether `state` waits for an event of the kind of `event`.
pub open spec fn accepts<S, E>(state: RegistrarState, event: RegistrarEvent<S, E>) -> bool {
    match state {
        RegistrarState::AwaitDbVersion => event is NextDbVersion || event is Failed,
        RegistrarState::AwaitVersionInfo { .. } => event is VersionInfo || event is Failed,
        RegistrarState::AwaitTimestamp { .. } => event is NewTimestamp,
        RegistrarState::AwaitInsert { .. } => event is Inserted || event is Failed,
        RegistrarState::Finished => false,
    }
}

pub open spec fn fault<S, E>(source: E, actor_id: [u8; 16], version: Option<CrsqlDbVersion>) -> (
    RegistrarState,
    RegistrarAction<S, E>,
) {
    (
        RegistrarState::Finished,
        RegistrarAction::Done(
            Err(ChangeError::Rusqlite { source, actor_id: Some(actor_id), version }),
        ),
    )
}

/// The next state and action of a registration that receives `event`.
pub open spec fn registrar_step<S, E>(
    state: RegistrarState,
    actor_id: [u8; 16],
    event: RegistrarEvent<S, E>,
) -> (RegistrarState, RegistrarAction<S, E>) {
    match (state, event) {
        (RegistrarState::AwaitDbVersion, RegistrarEvent::NextDbVersion(v)) => (
            RegistrarState::AwaitVersionInfo { db_version: v },
            RegistrarAction::QueryVersionInfo { db_version: v },
        ),
        (RegistrarState::AwaitVersionInfo { db_version }, RegistrarEvent::VersionInfo { last_seq, ts }) =>
            match (last_seq, ts) {
            (None, None) => (RegistrarState::Finished, RegistrarAction::Done(Ok(Registration::NoChange))),
            (None, Some(t)) => (
                RegistrarState::Finished,
                RegistrarAction::Done(Ok(Registration::TimestampWithoutSeq { db_version, ts: t })),
            ),
            (Some(s), None) => (
                RegistrarState::AwaitTimestamp { db_version, last_seq: s },
                RegistrarAction::MintTimestamp,
            ),
            (Some(s), Some(t)) => (
                RegistrarState::AwaitInsert { db_version, last_seq: s, ts: t },
                RegistrarAction::InsertDbVersion { db_version },
            ),
        },
        (RegistrarState::AwaitTimestamp { db_version, last_seq }, RegistrarEvent::NewTimestamp(t)) => (
            RegistrarState::AwaitInsert { db_version, last_seq, ts: t },
            RegistrarAction::InsertDbVersion { db_version },
        ),
        (RegistrarState::AwaitInsert { db_version, last_seq, ts }, RegistrarEvent::Inserted(snap)) => (
            RegistrarState::Finished,
            RegistrarAction::Done(
                Ok(Registration::Registered(InsertChangesInfo { db_version, last_seq, ts, snap })),
            ),
        ),
        (RegistrarState::AwaitInsert { db_version, .. }, RegistrarEvent::Failed(e)) => fault(
            e,
            actor_id,
            Some(db_version),
        ),
        (RegistrarState::AwaitVersionInfo { db_version }, RegistrarEvent::Failed(e)) => fault(
            e,
            actor_id,
            Some(db_version),
        ),
        (_, RegistrarEvent::Failed(e)) => fault(e, actor_id, None),
        _ => (state, RegistrarAction::Done(Ok(Registration::NoChange))),
    }
}

impl LocalChangeRegistrar {
    /// Starts a registration: the first action peeks the next version.
    pub fn begin<S, E>(actor_id: [u8; 16]) -> (r: (LocalChangeRegistrar, RegistrarAction<S, E>))
        ensures
            r.0.actor_id == actor_id,
            r.0.state == RegistrarState::AwaitDbVersion,
            r.1 is PeekNextDbVersion,
    {
        (
            LocalChangeRegistrar { actor_id, state: RegistrarState::AwaitDbVersion },
            RegistrarAction::PeekNextDbVersion,
        )
    }

    /// Takes the outcome of the last action and says what to do next.
    pub fn step<S, E>(&mut self, event: RegistrarEvent<S, E>) -> (r: RegistrarAction<S, E>)
        requires
            accepts(old(self).state, event),
        ensures
            final(self).actor_id == old(self).actor_id,
            (final(self).state, r) == registrar_step(old(self).state, old(self).actor_id, event),
    {
        let actor_id = self.actor_id;
        match (self.state, event) {
            (RegistrarState::AwaitDbVersion, RegistrarEvent::NextDbVersion(v)) => {
                self.state = RegistrarState::AwaitVersionInfo { db_version: v };
                RegistrarAction::QueryVersionInfo { db_version: v }
            },
            (RegistrarState::AwaitVersionInfo { db_version }, RegistrarEvent::VersionInfo { last_seq, ts }) => {
                match (last_seq, ts) {
                    (None, None) => {
                        self.state = RegistrarState::Finished;
                        RegistrarAction::Done(Ok(Registration::NoChange))
                    },
                    (None, Some(t)) => {
                        self.state = RegistrarState::Finished;
                        RegistrarAction::Done(Ok(Registration::TimestampWithoutSeq { db_version, ts: t }))
                    },
                    (Some(s), None) => {
                        self.state = RegistrarState::AwaitTimestamp { db_version, last_seq: s };
                        RegistrarAction::MintTimestamp
                    },
                    (Some(s), Some(t)) => {
                        self.state = RegistrarState::AwaitInsert { db_version, last_seq: s, ts: t };
                        RegistrarAction::InsertDbVersion { db_version }
                    },
                }
            },
            (RegistrarState::AwaitTimestamp { db_version, last_seq }, RegistrarEvent::NewTimestamp(t)) => {
                self.state = RegistrarState::AwaitInsert { db_version, last_seq, ts: t };
                RegistrarAction::InsertDbVersion { db_version }
            },
            (RegistrarState::AwaitInsert { db_version, last_seq, ts }, RegistrarEvent::Inserted(snap)) => {
                self.state = RegistrarState::Finished;
                RegistrarAction::Done(
                    Ok(Registration::Registered(InsertChangesInfo { db_version, last_seq, ts, snap })),
                )
            },
            (RegistrarState::AwaitInsert { db_version, .. }, RegistrarEvent::Failed(e)) => {
                self.state = RegistrarState::Finished;
                RegistrarAction::Done(
                    Err(ChangeError::Rusqlite { source: e, actor_id: Some(actor_id), version: Some(db_version) }),
                )
            },
            (RegistrarState::AwaitVersionInfo { db_version }, RegistrarEvent::Failed(e)) => {
                self.state = RegistrarState::Finished;
                RegistrarAction::Done(
                    Err(ChangeError::Rusqlite { source: e, actor_id: Some(actor_id), version: Some(db_version) }),
                )
            },
            (_, RegistrarEvent::Failed(e)) => {
                self.state = RegistrarState::Finished;
                RegistrarAction::Done(
                    Err(ChangeError::Rusqlite { source: e, actor_id: Some(actor_id), version: None }),
                )
            },
            _ => RegistrarAction::Done(Ok(Registration::NoChange)),
        }
    }
}

/// When the store holds neither a sequence number nor a timestamp for the
/// peeked version, the registration ends with nothing registered, and no
/// ledger insertion is asked for then or later.
pub proof fn lemma_no_local_change_registers_nothing<S, E>(
    actor_id: [u8; 16],
    db_version: CrsqlDbVersion,
)
    ensures
        ({
            let event = RegistrarEvent::<S, E>::VersionInfo { last_seq: None, ts: None };
            let (next, action) = registrar_step(
                RegistrarState::AwaitVersionInfo { db_version },
                actor_id,
                event,
            );
            &&& next == RegistrarState::Finished
            &&& action matches RegistrarAction::Done(Ok(Registration::NoChange))
        }),
        forall|e: RegistrarEvent<S, E>| !accepts(RegistrarState::Finished, e),
{
}

/// When the store holds a sequence number but no timestamp, the registration
/// asks for a fresh timestamp, and registers the version with exactly that
/// timestamp.
pub proof fn lemma_missing_timestamp_uses_fresh_one<S, E>(
    actor_id: [u8; 16],
    db_version: CrsqlDbVersion,
    last_seq: CrsqlSeq,
    fresh: Timestamp,
    snap: S,
)
    ensures
        ({
            let (s1, a1) = registrar_step(
                RegistrarState::AwaitVersionInfo { db_version },
                actor_id,
                RegistrarEvent::<S, E>::VersionInfo { last_seq: Some(last_seq), ts: None },
            );
            let (s2, a2) = registrar_step(s1, actor_id, RegistrarEvent::<S, E>::NewTimestamp(fresh));
            let (s3, a3) = registrar_step(s2, actor_id, RegistrarEvent::<S, E>::Inserted(snap));
            &&& a1 is MintTimestamp
            &&& accepts(s1, RegistrarEvent::<S, E>::NewTimestamp(fresh))
            &&& a2 == RegistrarAction::<S, E>::InsertDbVersion { db_version }
            &&& accepts(s2, RegistrarEvent::<S, E>::Inserted(snap))
            &&& s3 == RegistrarState::Finished
            &&& a3 == RegistrarAction::<S, E>::Done(
                Ok(
                    Registration::Registered(
                        InsertChangesInfo { db_version, last_seq, ts: fresh, snap },
                    ),
                ),
            )
        }),
{
}

/// A fault after the version was peeked carries the local writer and that
/// version; a fault of the peek itself carries the writer alone.
pub proof fn lemma_faults_carry_known_version<S, E>(
    actor_id: [u8; 16],
    db_version: CrsqlDbVersion,
    last_seq: CrsqlSeq,
    ts: Timestamp,
    e: E,
)
    ensures
        registrar_step(RegistrarState::AwaitDbVersion, actor_id, RegistrarEvent::<S, E>::Failed(e))
            == fault::<S, E>(e, actor_id, None),
        registrar_step(
            RegistrarState::AwaitVersionInfo { db_version },
            actor_id,
            RegistrarEvent::<S, E>::Failed(e),
        ) == fault::<S, E>(e, actor_id, Some(db_version)),
        registrar_step(
            RegistrarState::AwaitInsert { db_version, last_seq, ts },
            actor_id,
            RegistrarEvent::<S, E>::Failed(e),
        ) == fault::<S, E>(e, actor_id, Some(db_version)),
{
}

} // verus!
