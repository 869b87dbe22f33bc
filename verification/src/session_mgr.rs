//! Which sessions there are, and how many there may be.

use vstd::prelude::*;

use crate::error::ErrorCode;
use crate::text::decimal;
use crate::text::push_decimal;
use crate::text::same_text;
use crate::uuids::hyphenated;
use crate::uuids::hyphenated_text;
use crate::uuids::is_random;
use crate::uuids::new_v4;
use crate::vec_map::entries_map;
use crate::vec_map::MapKey;
use crate::vec_map::VecMap;

verus! {

#[derive(Clone, Copy, Debug, PartialEq, Eq, Structural)]
pub enum SessionType {
    Dummy,
    FlightRPC,
    MySQL,
    /// Any other kind, by its number.
    Other(u32),
}

pub open spec fn is_tracked(typ: SessionType) -> bool {
    typ != SessionType::Dummy && typ != SessionType::FlightRPC
}

/// What is known of the sessions as a whole.
#[derive(Clone, Copy, Debug, PartialEq, Eq, Structural)]
pub struct SessionManagerStatus {
    pub running_queries_count: u64,
    pub active_sessions_count: u64,
    /// When the last query started and finished, in seconds.
    pub last_query_started_at: Option<u64>,
    pub last_query_finished_at: Option<u64>,
}

/// A session as far as the status counts it.
#[derive(Clone, Copy, Debug, PartialEq, Eq, Structural)]
pub struct SessionState {
    pub is_user_session: bool,
    pub is_query: bool,
}

/// A setting that the configuration changes.
#[derive(Debug)]
pub enum SettingChange {
    ParquetFastReadBytes(u64),
    MaxStorageIoRequests(u64),
    EnterpriseLicense(String),
}

/// What the configuration says of the settings.
#[derive(Debug)]
pub struct QueryConfig {
    pub parquet_fast_read_bytes: Option<u64>,
    pub max_storage_io_requests: Option<u64>,
    pub databend_enterprise_license: Option<String>,
}

/// The sessions; `W` is what a session is reached by.
#[derive(Debug)]
pub struct SessionManager<W> {
    pub max_sessions: usize,
    pub active_sessions: VecMap<String, W>,
    pub status: SessionManagerStatus,
    /// The sessions of MySQL connections by the ids of the connections.
    pub mysql_conn_map: VecMap<Option<u32>, String>,
    pub mysql_basic_conn_id: u32,
}

/// There are never more sessions than there may be.
pub open spec fn manager_ok<W>(m: SessionManager<W>) -> bool {
    &&& m.active_sessions.wf()
    &&& m.mysql_conn_map.wf()
    &&& m.active_sessions@.dom().finite()
    &&& m.mysql_conn_map@.dom().finite()
    &&& m.active_sessions@.len() <= m.max_sessions
    &&& m.mysql_conn_map@.len() <= m.max_sessions
}

/// The message that there are too many of something.
pub open spec fn too_many(reason: Seq<char>, count: nat, max: nat) -> Seq<char> {
    "Current "@ + reason + " ("@ + decimal(count) + ") has exceeded the max_active_sessions limit ("@ + decimal(max)
        + ")"@
}

pub open spec fn is_too_many<T>(r: Result<T, ErrorCode>, reason: Seq<char>, count: nat, max: nat) -> bool {
    r matches Err(ErrorCode::TooManyUserConnections(m)) && m@ == too_many(reason, count, max)
}

/// What a session is made with.
#[derive(Debug)]
pub struct SessionSeed {
    pub id: String,
    pub typ: SessionType,
    pub mysql_conn_id: Option<u32>,
}

/// Those that are there, in order.
pub open spec fn present<T>(v: Seq<Option<T>>) -> Seq<T>
    decreases v.len(),
{
    if v.len() == 0 {
        Seq::empty()
    } else {
        match v.last() {
            Some(t) => present(v.drop_last()).push(t),
            None => present(v.drop_last()),
        }
    }
}

impl<W> SessionManager<W> {
    pub fn create(max_active_sessions: usize) -> (r: SessionManager<W>)
        ensures
            manager_ok(r),
            r.max_sessions == max_active_sessions,
            r.active_sessions@ == Map::<Seq<char>, W>::empty(),
            r.mysql_conn_map@ == Map::<Option<u32>, String>::empty(),
            r.mysql_basic_conn_id == 9,
            r.status == no_status(),
    {
        SessionManager {
            max_sessions: max_active_sessions,
            active_sessions: VecMap::new(),
            status: SessionManagerStatus {
                running_queries_count: 0,
                active_sessions_count: 0,
                last_query_started_at: None,
                last_query_finished_at: None,
            },
            mysql_conn_map: VecMap::new(),
            mysql_basic_conn_id: 9,
        }
    }

    fn validate_max_active_sessions(&self, count: usize, reason: &str) -> (r: Result<(), ErrorCode>)
        ensures
            r is Ok <==> count < self.max_sessions,
            r is Err ==> is_too_many(r, reason@, count as nat, self.max_sessions as nat),
    {
        if count >= self.max_sessions {
            let mut m = String::new();
            m.append("Current ");
            m.append(reason);
            m.append(" (");
            push_decimal(&mut m, count as u64);
            m.append(") has exceeded the max_active_sessions limit (");
            push_decimal(&mut m, self.max_sessions as u64);
            m.append(")");
            assert(m@ =~= too_many(reason@, count as nat, self.max_sessions as nat));
            return Err(ErrorCode::TooManyUserConnections(m));
        }
        Ok(())
    }

    /// Whether a session of a kind may be created.
    pub fn create_session(&self, typ: SessionType) -> (r: Result<(), ErrorCode>)
        requires
            manager_ok(*self),
        ensures
            if is_tracked(typ) && self.active_sessions@.len() >= self.max_sessions {
                is_too_many(r, "active sessions"@, self.active_sessions@.len(), self.max_sessions as nat)
            } else if typ == SessionType::MySQL && self.mysql_conn_map@.len() >= self.max_sessions {
                is_too_many(r, "mysql conns"@, self.mysql_conn_map@.len(), self.max_sessions as nat)
            } else {
                r is Ok
            },
    {
        if !matches!(typ, SessionType::Dummy | SessionType::FlightRPC) {
            match self.validate_max_active_sessions(self.active_sessions.len(), "active sessions") {
                Err(e) => return Err(e),
                Ok(()) => {},
            }
        }
        if matches!(typ, SessionType::MySQL) {
            match self.validate_max_active_sessions(self.mysql_conn_map.len(), "mysql conns") {
                Err(e) => return Err(e),
                Ok(()) => {},
            }
        }
        Ok(())
    }

    /// Makes a session that is not tracked one of another kind.
    pub fn try_upgrade_session(&mut self, id: String, session: W, typ: &mut SessionType, typ_to: SessionType) -> (r:
        Result<(), ErrorCode>)
        requires
            manager_ok(*old(self)),
        ensures
            if *old(typ) != SessionType::Dummy {
                &&& (r matches Err(ErrorCode::Internal(m)) && m@ == "bug: can only upgrade Dummy session"@)
                &&& *final(self) == *old(self)
                &&& *final(typ) == *old(typ)
            } else {
                &&& *final(typ) == typ_to
                &&& session_added(*old(self), id@, session, typ_to, *final(self), r)
            },
            manager_ok(*final(self)),
    {
        if !matches!(*typ, SessionType::Dummy) {
            return Err(ErrorCode::Internal("bug: can only upgrade Dummy session".to_owned()));
        }
        *typ = typ_to;
        self.try_add_session(id, session, typ_to)
    }

    /// Tracks a session, where its kind is tracked and there is room for it.
    pub fn try_add_session(&mut self, id: String, session: W, typ: SessionType) -> (r: Result<(), ErrorCode>)
        requires
            manager_ok(*old(self)),
        ensures
            session_added(*old(self), id@, session, typ, *final(self), r),
            manager_ok(*final(self)),
    {
        if !matches!(typ, SessionType::Dummy | SessionType::FlightRPC) {
            match self.validate_max_active_sessions(self.active_sessions.len(), "active sessions") {
                Err(e) => return Err(e),
                Ok(()) => {},
            }
            self.active_sessions.insert(id, session);
        }
        Ok(())
    }

    /// The settings that the configuration changes.
    pub fn load_config_changes(config: &QueryConfig) -> (r: Vec<SettingChange>)
        ensures
            changes_view(r@) == config_changes(*config),
    {
        let mut changes: Vec<SettingChange> = Vec::new();
        if let Some(bytes) = config.parquet_fast_read_bytes {
            changes.push(SettingChange::ParquetFastReadBytes(bytes));
        }
        if let Some(requests) = config.max_storage_io_requests {
            changes.push(SettingChange::MaxStorageIoRequests(requests));
        }
        if let Some(license) = &config.databend_enterprise_license {
            changes.push(SettingChange::EnterpriseLicense(license.clone()));
        }
        assert(changes_view(changes@) =~= config_changes(*config));
        changes
    }

    /// What a new session is made with: an identifier, and for a MySQL connection the next id of
    /// those.
    pub fn seed_session(&mut self, typ: SessionType) -> (r: SessionSeed)
        ensures
            exists|id: u128| is_random(id) && r.id@ == #[trigger] hyphenated(id),
            r.typ == typ,
            seeded(*old(self), typ, *final(self), r.mysql_conn_id),
    {
        let id: u128 = new_v4();
        let text = hyphenated_text(id);
        assert(text@ == hyphenated(id));
        self.seed_with_id(typ, text)
    }

    /// What a new session of the given identifier is made with.
    pub fn seed_with_id(&mut self, typ: SessionType, id: String) -> (r: SessionSeed)
        ensures
            r.id == id,
            r.typ == typ,
            seeded(*old(self), typ, *final(self), r.mysql_conn_id),
    {
        let mysql_conn_id = match typ {
            SessionType::MySQL => {
                let conn_id: u32 = self.mysql_basic_conn_id;
                self.mysql_basic_conn_id = conn_id.wrapping_add(1);
                Some(conn_id)
            },
            _ => None,
        };
        SessionSeed { id, typ, mysql_conn_id }
    }

    /// Tracks a session that was made, and its MySQL connection.
    pub fn create_with_settings(&mut self, seed: SessionSeed, session: W) -> (r: Result<(), ErrorCode>)
        requires
            manager_ok(*old(self)),
        ensures
            manager_ok(*final(self)),
            final(self).max_sessions == old(self).max_sessions,
            final(self).status == old(self).status,
            final(self).mysql_basic_conn_id == old(self).mysql_basic_conn_id,
            if is_tracked(seed.typ) && old(self).active_sessions@.len() >= old(self).max_sessions {
                &&& is_too_many(r, "active sessions"@, old(self).active_sessions@.len(), old(self).max_sessions as nat)
                &&& *final(self) == *old(self)
            } else {
                &&& final(self).active_sessions@ == (if is_tracked(seed.typ) {
                    old(self).active_sessions@.insert(seed.id@, session)
                } else {
                    old(self).active_sessions@
                })
                &&& if seed.typ == SessionType::MySQL && old(self).mysql_conn_map@.len() >= old(self).max_sessions {
                    &&& is_too_many(r, "mysql conns"@, old(self).mysql_conn_map@.len(), old(self).max_sessions as nat)
                    &&& final(self).mysql_conn_map == old(self).mysql_conn_map
                } else {
                    &&& r is Ok
                    &&& if seed.typ == SessionType::MySQL {
                        exists|id: String|
                            id@ == seed.id@ && final(self).mysql_conn_map@
                                == #[trigger] old(self).mysql_conn_map@.insert(seed.mysql_conn_id, id)
                    } else {
                        final(self).mysql_conn_map == old(self).mysql_conn_map
                    }
                }
            },
    {
        let id = seed.id.clone();
        match self.try_add_session(id, session, seed.typ) {
            Err(e) => return Err(e),
            Ok(()) => {},
        }
        if let SessionType::MySQL = seed.typ {
            match self.validate_max_active_sessions(self.mysql_conn_map.len(), "mysql conns") {
                Err(e) => return Err(e),
                Ok(()) => {},
            }
            self.mysql_conn_map.insert(seed.mysql_conn_id, seed.id);
        }
        Ok(())
    }

    pub fn get_session_by_id(&self, id: &String) -> (r: Option<&W>)
        requires
            manager_ok(*self),
        ensures
            r == (if self.active_sessions@.contains_key(id@) {
                Some(&self.active_sessions@[id@])
            } else {
                None
            }),
    {
        self.active_sessions.get(id)
    }

    pub fn get_id_by_mysql_conn_id(&self, mysql_conn_id: &Option<u32>) -> (r: Option<String>)
        requires
            manager_ok(*self),
        ensures
            r is Some <==> self.mysql_conn_map@.contains_key(*mysql_conn_id),
            r matches Some(id) ==> id@ == self.mysql_conn_map@[*mysql_conn_id]@,
    {
        match self.mysql_conn_map.get(mysql_conn_id) {
            Some(id) => Some(id.clone()),
            None => None,
        }
    }

    /// Tracks a session no more, nor its MySQL connections. Gives the number of sessions left.
    pub fn destroy_session(&mut self, session_id: &String) -> (r: usize)
        requires
            manager_ok(*old(self)),
        ensures
            manager_ok(*final(self)),
            r == final(self).active_sessions@.len(),
            final(self).max_sessions == old(self).max_sessions,
            final(self).status == old(self).status,
            final(self).mysql_basic_conn_id == old(self).mysql_basic_conn_id,
            final(self).active_sessions@ == old(self).active_sessions@.remove(session_id@),
            final(self).mysql_conn_map@ == without_value(old(self).mysql_conn_map@, session_id@),
    {
        // stop tracking session
        let _ = self.active_sessions.remove(session_id);
        // also need remove mysql_conn_map
        let ghost all = self.mysql_conn_map@;
        let ghost wanted = |v: String| v@ == session_id@;
        let mut more = true;
        while more
            invariant
                self.active_sessions@ == old(self).active_sessions@.remove(session_id@),
                self.active_sessions.wf(),
                self.max_sessions == old(self).max_sessions,
                self.status == old(self).status,
                self.mysql_basic_conn_id == old(self).mysql_basic_conn_id,
                self.mysql_conn_map.wf(),
                self.mysql_conn_map@.dom().finite(),
                self.mysql_conn_map@.submap_of(all),
                all == old(self).mysql_conn_map@,
                all.dom().finite(),
                self.mysql_conn_map@.len() <= all.len(),
                wanted == (|v: String| v@ == session_id@),
                forall|k: Option<u32>| #[trigger]
                    all.contains_key(k) && all[k]@ != session_id@ ==> self.mysql_conn_map@.contains_key(k),
                !more ==> forall|k: Option<u32>| #[trigger]
                    self.mysql_conn_map@.contains_key(k) ==> self.mysql_conn_map@[k]@ != session_id@,
            decreases self.mysql_conn_map@.len(), (if more {
                1int
            } else {
                0
            }),
        {
            let is_own = |v: &String| -> (b: bool)
                ensures
                    b == (v@ == session_id@),
                { same_text(v.as_str(), session_id.as_str()) };
            let found = match self.mysql_conn_map.find(is_own, Ghost(wanted)) {
                Some(k) => Some(*k),
                None => None,
            };
            match found {
                Some(k) => {
                    let _ = self.mysql_conn_map.remove(&k);
                },
                None => {
                    more = false;
                },
            }
        }
        assert(self.mysql_conn_map@ =~= without_value(all, session_id@));
        self.active_sessions.len()
    }

    /// Drops what is kept of the sessions that are gone. Tells whether none is left.
    pub fn destroy_idle_sessions(&mut self, gone: &Vec<String>) -> (r: bool)
        requires
            manager_ok(*old(self)),
        ensures
            manager_ok(*final(self)),
            final(self).max_sessions == old(self).max_sessions,
            final(self).status == old(self).status,
            final(self).mysql_basic_conn_id == old(self).mysql_basic_conn_id,
            final(self).mysql_conn_map == old(self).mysql_conn_map,
            final(self).active_sessions@ == without_keys(old(self).active_sessions@, gone@, gone@.len()),
            r == (final(self).active_sessions@.len() == 0),
    {
        let mut i: usize = 0;
        while i < gone.len()
            invariant
                i <= gone@.len(),
                self.active_sessions.wf(),
                self.active_sessions@.dom().finite(),
                self.active_sessions@.len() <= old(self).active_sessions@.len(),
                self.active_sessions@ == without_keys(old(self).active_sessions@, gone@, i as nat),
                self.max_sessions == old(self).max_sessions,
                self.status == old(self).status,
                self.mysql_basic_conn_id == old(self).mysql_basic_conn_id,
                self.mysql_conn_map == old(self).mysql_conn_map,
            decreases gone.len() - i,
        {
            let _ = self.active_sessions.remove(&gone[i]);
            i += 1;
        }
        self.active_sessions.len() == 0
    }

    /// The status, with the sessions that there are counted.
    pub fn get_current_session_status(&self, sessions: &Vec<SessionState>) -> (r: SessionManagerStatus)
        ensures
            r == (SessionManagerStatus {
                running_queries_count: users_in(sessions@, true) as u64,
                active_sessions_count: users_in(sessions@, false) as u64,
                ..self.status
            }),
    {
        let mut running_queries_count: u64 = 0;
        let mut active_sessions_count: u64 = 0;
        let mut i: usize = 0;
        assert(sessions@.take(0) =~= Seq::<SessionState>::empty());
        while i < sessions.len()
            invariant
                i <= sessions@.len(),
                running_queries_count == users_in(sessions@.take(i as int), true),
                active_sessions_count == users_in(sessions@.take(i as int), false),
                running_queries_count <= i,
                active_sessions_count <= i,
            decreases sessions.len() - i,
        {
            assert(sessions@.take(i + 1).drop_last() =~= sessions@.take(i as int));
            let session = sessions[i];
            i += 1;
            if session.is_user_session {
                active_sessions_count += 1;
                if session.is_query {
                    running_queries_count += 1;
                }
            }
        }
        assert(sessions@.take(i as int) =~= sessions@);
        SessionManagerStatus { running_queries_count, active_sessions_count, ..self.status }
    }

    /// What is to be told of the sessions that are still there.
    pub fn processes_info<I>(sessions: Vec<Option<I>>) -> (r: Vec<I>)
        ensures
            r@ == present(sessions@),
    {
        let ghost all = sessions@;
        let total: usize = sessions.len();
        let mut rest = sessions;
        let mut r: Vec<I> = Vec::new();
        let mut n: usize = 0;
        assert(all.take(0) =~= Seq::<Option<I>>::empty());
        while n < total
            invariant
                n <= total,
                total == all.len(),
                rest@ == all.skip(n as int),
                r@ == present(all.take(n as int)),
            decreases total - n,
        {
            let session = rest.remove(0);
            assert(all.skip(n as int)[0] == all[n as int]);
            assert(rest@ =~= all.skip(n + 1));
            assert(all.take(n + 1).drop_last() =~= all.take(n as int));
            if let Some(info) = session {
                r.push(info);
            }
            n += 1;
        }
        assert(all.take(total as int) =~= all);
        r
    }

    /// The profiles of the queries that are run, by the ids of the queries. A session that runs no
    /// query has none.
    pub fn get_queries_profile<P>(sessions: Vec<Option<(String, P)>>) -> (r: VecMap<String, P>)
        ensures
            r.wf(),
            r@ == entries_map(present(sessions@), present(sessions@).len()),
    {
        VecMap::from_entries(Self::processes_info(sessions))
    }
}

pub open spec fn no_status() -> SessionManagerStatus {
    SessionManagerStatus {
        running_queries_count: 0,
        active_sessions_count: 0,
        last_query_started_at: None,
        last_query_finished_at: None,
    }
}

/// What adding a session comes to.
pub open spec fn session_added<W>(
    before: SessionManager<W>,
    id: Seq<char>,
    session: W,
    typ: SessionType,
    after: SessionManager<W>,
    r: Result<(), ErrorCode>,
) -> bool {
    if !is_tracked(typ) {
        r is Ok && after == before
    } else if before.active_sessions@.len() >= before.max_sessions {
        is_too_many(r, "active sessions"@, before.active_sessions@.len(), before.max_sessions as nat) && after == before
    } else {
        &&& r is Ok
        &&& after.active_sessions@ == before.active_sessions@.insert(id, session)
        &&& after == (SessionManager { active_sessions: after.active_sessions, ..before })
    }
}

/// A session of a kind was seeded, with the next id of the MySQL connections where it is one.
pub open spec fn seeded<W>(
    before: SessionManager<W>,
    typ: SessionType,
    after: SessionManager<W>,
    mysql_conn_id: Option<u32>,
) -> bool {
    if typ == SessionType::MySQL {
        &&& mysql_conn_id == Some(before.mysql_basic_conn_id)
        &&& after == (SessionManager {
            mysql_basic_conn_id: if before.mysql_basic_conn_id == u32::MAX {
                0
            } else {
                (before.mysql_basic_conn_id + 1) as u32
            },
            ..before
        })
    } else {
        mysql_conn_id is None && after == before
    }
}

pub enum ChangeView {
    ParquetFastReadBytes(u64),
    MaxStorageIoRequests(u64),
    EnterpriseLicense(Seq<char>),
}

pub open spec fn change_view(c: SettingChange) -> ChangeView {
    match c {
        SettingChange::ParquetFastReadBytes(n) => ChangeView::ParquetFastReadBytes(n),
        SettingChange::MaxStorageIoRequests(n) => ChangeView::MaxStorageIoRequests(n),
        SettingChange::EnterpriseLicense(s) => ChangeView::EnterpriseLicense(s@),
    }
}

pub open spec fn changes_view(v: Seq<SettingChange>) -> Seq<ChangeView> {
    v.map_values(|c: SettingChange| change_view(c))
}

/// The settings that the configuration changes.
pub open spec fn config_changes(config: QueryConfig) -> Seq<ChangeView> {
    (match config.parquet_fast_read_bytes {
        Some(n) => seq![ChangeView::ParquetFastReadBytes(n)],
        None => Seq::empty(),
    }) + (match config.max_storage_io_requests {
        Some(n) => seq![ChangeView::MaxStorageIoRequests(n)],
        None => Seq::empty(),
    }) + (match config.databend_enterprise_license {
        Some(s) => seq![ChangeView::EnterpriseLicense(s@)],
        None => Seq::empty(),
    })
}

/// The entries of a map that hold another text.
pub open spec fn without_value(m: Map<Option<u32>, String>, text: Seq<char>) -> Map<Option<u32>, String> {
    m.restrict(Set::new(|k: Option<u32>| m.contains_key(k) && m[k]@ != text))
}

/// A map without the first `n` of the given keys.
pub open spec fn without_keys<W>(m: Map<Seq<char>, W>, keys: Seq<String>, n: nat) -> Map<Seq<char>, W>
    decreases n,
{
    if n == 0 {
        m
    } else {
        without_keys(m, keys, (n - 1) as nat).remove(keys[n - 1]@)
    }
}

/// How many sessions of users there are, or how many of them run a query.
pub open spec fn users_in(sessions: Seq<SessionState>, queries_only: bool) -> nat
    decreases sessions.len(),
{
    if sessions.len() == 0 {
        0
    } else {
        users_in(sessions.drop_last(), queries_only) + if sessions.last().is_user_session && (!queries_only
            || sessions.last().is_query) {
            1nat
        } else {
            0
        }
    }
}

/// A second, in nanoseconds.
pub const SECOND: u128 = 1_000_000_000;

/// What happened while sessions are waited for.
#[derive(Clone, Copy, Debug, PartialEq, Eq, Structural)]
pub enum ShutdownEvent {
    /// What is kept of idle sessions was dropped; whether none is left.
    IdleDestroyed(bool),
    Slept,
    Signalled,
}

/// What is done next to shut down.
#[derive(Clone, Copy, Debug, PartialEq, Eq, Structural)]
pub enum ShutdownAction {
    DestroyIdle,
    /// Wait a second, or for a signal.
    Sleep,
    ForceKill,
    Return,
}

/// The next step while that much time is left, in nanoseconds.
pub open spec fn next_wait(left: u128) -> ShutdownAction {
    if left == 0 {
        ShutdownAction::ForceKill
    } else {
        ShutdownAction::DestroyIdle
    }
}

pub open spec fn second_less(left: u128) -> u128 {
    if left > SECOND {
        (left - SECOND) as u128
    } else {
        0
    }
}

/// A shutdown that waits for the sessions, for a time.
#[derive(Debug)]
pub struct GracefulShutdown {
    /// How long it waits yet, in nanoseconds.
    pub left: u128,
}

impl GracefulShutdown {
    /// Starts to wait; without a timeout there is no wait.
    pub fn graceful_shutdown(timeout: Option<u128>) -> (r: (GracefulShutdown, ShutdownAction))
        ensures
            match timeout {
                Some(t) => r.0.left == t && r.1 == next_wait(t),
                None => r.0.left == 0 && r.1 == ShutdownAction::ForceKill,
            },
    {
        let left: u128 = match timeout {
            Some(t) => t,
            None => 0,
        };
        let action = if left == 0 {
            ShutdownAction::ForceKill
        } else {
            ShutdownAction::DestroyIdle
        };
        (GracefulShutdown { left }, action)
    }

    /// What is done next: the wait ends when no session is left, when it is signalled, or when
    /// its time is over.
    pub fn next(&mut self, event: ShutdownEvent) -> (r: ShutdownAction)
        ensures
            match event {
                ShutdownEvent::IdleDestroyed(none_left) => final(self).left == old(self).left && r == (if none_left {
                    ShutdownAction::Return
                } else {
                    ShutdownAction::Sleep
                }),
                ShutdownEvent::Signalled => final(self).left == old(self).left && r == ShutdownAction::ForceKill,
                ShutdownEvent::Slept => final(self).left == second_less(old(self).left) && r == next_wait(
                    final(self).left,
                ),
            },
    {
        match event {
            ShutdownEvent::IdleDestroyed(none_left) => if none_left {
                ShutdownAction::Return
            } else {
                ShutdownAction::Sleep
            },
            ShutdownEvent::Signalled => ShutdownAction::ForceKill,
            ShutdownEvent::Slept => {
                self.left = if self.left > SECOND {
                    self.left - SECOND
                } else {
                    0
                };
                if self.left == 0 {
                    ShutdownAction::ForceKill
                } else {
                    ShutdownAction::DestroyIdle
                }
            },
        }
    }
}

/// What is left after that many seconds.
pub open spec fn left_after(timeout: u128, seconds: nat) -> u128
    decreases seconds,
{
    if seconds == 0 {
        timeout
    } else {
        second_less(left_after(timeout, (seconds - 1) as nat))
    }
}

/// A shutdown waits no longer than its timeout, rounded up to seconds.
pub proof fn shutdown_wait_is_bounded(timeout: u128, seconds: nat)
    ensures
        left_after(timeout, seconds) as int == (if timeout > seconds * SECOND {
            timeout - seconds * SECOND
        } else {
            0
        }),
        seconds * SECOND >= timeout ==> next_wait(left_after(timeout, seconds)) == ShutdownAction::ForceKill,
    decreases seconds,
{
    if seconds > 0 {
        shutdown_wait_is_bounded(timeout, (seconds - 1) as nat);
    }
}

/// A session that was tracked is found under its id, and no more once it is destroyed.
pub proof fn tracked_sessions_are_found<W>(
    before: SessionManager<W>,
    id: Seq<char>,
    session: W,
    typ: SessionType,
    after: SessionManager<W>,
    r: Result<(), ErrorCode>,
)
    requires
        session_added(before, id, session, typ, after, r),
        is_tracked(typ),
        r is Ok,
    ensures
        after.active_sessions@.contains_key(id) && after.active_sessions@[id] == session,
        !after.active_sessions@.remove(id).contains_key(id),
{
}

/// Sessions are counted, but for those that stand for no client and those of other nodes.
pub proof fn clients_are_counted(typ: SessionType)
    ensures
        !is_tracked(typ) <==> typ is Dummy || typ is FlightRPC,
{
}

/// No more sessions are added than are allowed: one that is counted is added exactly while there
/// are fewer than the limit, and what is refused changes nothing. Sessions that are not counted are
/// never refused, and those that were there stay.
pub proof fn the_limit_on_sessions_is_kept<W>(
    before: SessionManager<W>,
    id: Seq<char>,
    session: W,
    typ: SessionType,
    after: SessionManager<W>,
    r: Result<(), ErrorCode>,
)
    requires
        session_added(before, id, session, typ, after, r),
    ensures
        r is Err <==> !(typ is Dummy || typ is FlightRPC) && before.active_sessions@.len() >= before.max_sessions,
        r is Err ==> after == before && r->Err_0 is TooManyUserConnections,
        typ is Dummy || typ is FlightRPC ==> after == before,
        r is Ok && !(typ is Dummy || typ is FlightRPC) ==> after.active_sessions@.contains_key(id)
            && after.active_sessions@[id] == session,
        forall|other: Seq<char>|
            other != id ==> (#[trigger] after.active_sessions@.contains_key(other) <==> before.active_sessions@.contains_key(
                other,
            )) && (before.active_sessions@.contains_key(other) ==> after.active_sessions@[other]
                == before.active_sessions@[other]),
        after.max_sessions == before.max_sessions,
{
}

/// MySQL connections are numbered one after the other; other sessions use up no number.
pub proof fn mysql_connections_are_numbered<W>(
    first: SessionManager<W>,
    typ: SessionType,
    second: SessionManager<W>,
    number: Option<u32>,
    third: SessionManager<W>,
    next: Option<u32>,
)
    requires
        seeded(first, typ, second, number),
        seeded(second, SessionType::MySQL, third, next),
        first.mysql_basic_conn_id < u32::MAX,
    ensures
        number is Some <==> typ is MySQL,
        next is Some,
        number matches Some(n) ==> next == Some((n + 1) as u32) && n == first.mysql_basic_conn_id,
        number is None ==> next == Some(first.mysql_basic_conn_id),
{
}

/// A session that is destroyed leaves no connection behind, and the connections of the others stay.
pub proof fn destroyed_sessions_leave_no_connection(m: Map<Option<u32>, String>, id: Seq<char>, connection: Option<u32>)
    ensures
        without_value(m, id).contains_key(connection) <==> m.contains_key(connection) && m[connection]@ != id,
        without_value(m, id).contains_key(connection) ==> without_value(m, id)[connection] == m[connection],
{
}

/// Sessions that are gone are taken out, and only those.
pub proof fn only_sessions_that_are_gone_are_taken_out<W>(m: Map<Seq<char>, W>, gone: Seq<String>, n: nat, id: Seq<char>)
    requires
        n <= gone.len(),
    ensures
        without_keys(m, gone, n).contains_key(id) <==> m.contains_key(id) && forall|i: int|
            0 <= i < n ==> (#[trigger] gone[i])@ != id,
        without_keys(m, gone, n).contains_key(id) ==> without_keys(m, gone, n)[id] == m[id],
    decreases n,
{
    if n > 0 {
        only_sessions_that_are_gone_are_taken_out(m, gone, (n - 1) as nat, id);
        if forall|i: int| 0 <= i < n - 1 ==> (#[trigger] gone[i])@ != id {
            if gone[n - 1]@ != id {
                assert forall|i: int| 0 <= i < n implies (#[trigger] gone[i])@ != id by {}
            }
        }
    }
}

/// The status counts the sessions of users, and of those the ones that run a query.
pub proof fn user_sessions_are_counted(sessions: Seq<SessionState>)
    ensures
        users_in(sessions, false) == sessions.filter(|s: SessionState| s.is_user_session).len(),
        users_in(sessions, true) == sessions.filter(|s: SessionState| s.is_user_session && s.is_query).len(),
    decreases sessions.len(),
{
    reveal(Seq::filter);
    if sessions.len() > 0 {
        user_sessions_are_counted(sessions.drop_last());
    }
}

/// Of sessions that may be gone those that are left are listed, in their order.
pub proof fn sessions_that_are_left_are_listed<T>(v: Seq<Option<T>>)
    ensures
        present(v) == v.filter(|s: Option<T>| s is Some).map_values(|s: Option<T>| s->0),
    decreases v.len(),
{
    reveal(Seq::filter);
    let of = |s: Option<T>| s->0;
    let is = |s: Option<T>| s is Some;
    if v.len() > 0 {
        sessions_that_are_left_are_listed(v.drop_last());
        if v.last() is Some {
            assert(v.drop_last().filter(is).push(v.last()).map_values(of) =~= v.drop_last().filter(is).map_values(of).push(
                of(v.last()),
            ));
        }
        assert(present(v) =~= v.filter(is).map_values(of));
    } else {
        assert(present(v) =~= v.filter(is).map_values(of));
    }
}

/// A setting is changed exactly where the configuration has a value for it, and to that value.
pub proof fn configured_settings_are_changed(config: QueryConfig, n: u64)
    ensures
        config_changes(config).contains(ChangeView::ParquetFastReadBytes(n)) <==> config.parquet_fast_read_bytes
            == Some(n),
        config_changes(config).contains(ChangeView::MaxStorageIoRequests(n)) <==> config.max_storage_io_requests
            == Some(n),
        config.databend_enterprise_license matches Some(s) ==> config_changes(config).contains(
            ChangeView::EnterpriseLicense(s@),
        ),
        config_changes(config).len() == (if config.parquet_fast_read_bytes is Some {
            1int
        } else {
            0
        }) + (if config.max_storage_io_requests is Some {
            1int
        } else {
            0
        }) + (if config.databend_enterprise_license is Some {
            1int
        } else {
            0
        }),
{
    let all = config_changes(config);
    let a: int = if config.parquet_fast_read_bytes is Some {
        1
    } else {
        0
    };
    let b: int = if config.max_storage_io_requests is Some {
        1
    } else {
        0
    };
    if let Some(x) = config.parquet_fast_read_bytes {
        assert(all[0] == ChangeView::ParquetFastReadBytes(x));
    }
    if let Some(x) = config.max_storage_io_requests {
        assert(all[a] == ChangeView::MaxStorageIoRequests(x));
    }
    if let Some(s) = config.databend_enterprise_license {
        assert(all[a + b] == ChangeView::EnterpriseLicense(s@));
    }
}

/// While time is left, sessions are waited for; a second is a thousand million nanoseconds.
pub proof fn a_shutdown_waits_while_time_is_left(timeout: u128, seconds: nat)
    requires
        seconds * 1_000_000_000 < timeout,
    ensures
        next_wait(left_after(timeout, seconds)) == ShutdownAction::DestroyIdle,
        left_after(timeout, seconds) as int == timeout - seconds * 1_000_000_000,
{
    shutdown_wait_is_bounded(timeout, seconds);
}

/// A manager that has just been made has seen no query and has no session.
pub proof fn at_first_nothing_has_run()
    ensures
        no_status().running_queries_count == 0,
        no_status().active_sessions_count == 0,
        no_status().last_query_started_at is None,
        no_status().last_query_finished_at is None,
{
}

}
