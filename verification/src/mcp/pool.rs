//! The pool of tool servers that all sessions share.
//!
//! One pool serves every session, so each server runs once. The pool decides
//! who connects, who waits and what becomes of an attempt; making and ending
//! connections is left to its caller, who hands in what a connection is
//! reached by.

use crate::sort;
use crate::text;
use crate::text::{cat3, cat4, clone_opt, decimal_of, owned};
use crate::text_map::TextMap;
use vstd::prelude::*;

verus! {

/// How long a server is left alone after it could not be connected, in
/// nanoseconds.
pub const FAILED_CONNECT_RETRY_COOLDOWN: u64 = 30_000_000_000;

/// The nanoseconds of a second.
pub const SECOND: u64 = 1_000_000_000;

/// What is told of an attempt that left neither a connection nor an error.
pub const NO_HANDLE: &'static str = "Connection attempt did not produce a handle";

/// A server of the configuration.
#[derive(Debug)]
pub struct ServerEntry {
    pub name: String,
    /// Whether it is to be connected without being asked for.
    pub enabled: bool,
    /// Whether sessions share it; else each session has its own.
    pub shared: bool,
}

/// Why and when a server could not be connected, in nanoseconds of a clock
/// that never goes back.
#[derive(Debug)]
pub struct FailedConnect {
    pub message: String,
    pub failed_at: u64,
}

/// What somebody who wants a connection has to do.
#[derive(Debug)]
pub enum ConnectAttempt {
    /// The server is connected.
    Connected,
    /// Start the attempt of that number, then wait for it.
    Leader { seq: u64 },
    /// Wait for the attempt of that number.
    Wait { seq: u64 },
}

/// What becomes of the outcome of an attempt.
#[derive(Debug)]
pub enum Admission<H> {
    /// It stands: the server is connected, or its failure is on record.
    Recorded,
    /// It comes too late; a connection that was made is to be ended.
    Discarded(Option<H>),
}

/// The pool. A connection is reached by an `H`.
pub struct SharedMcpPool<H> {
    handles: TextMap<H>,
    config: Vec<ServerEntry>,
    config_dir: Option<String>,
    ref_counts: TextMap<usize>,
    connecting: TextMap<u64>,
    connect_seq: u64,
    last_errors: TextMap<FailedConnect>,
}

/// What a pool stands for.
#[verifier::ext_equal]
pub struct PoolView<H> {
    /// The servers that are connected.
    pub handles: Map<Seq<char>, H>,
    /// The configuration.
    pub config: Seq<ServerEntry>,
    /// The directory that the configuration is for.
    pub config_dir: Option<Seq<char>>,
    /// How many sessions hold each server.
    pub ref_counts: Map<Seq<char>, usize>,
    /// The attempts that are under way.
    pub connecting: Map<Seq<char>, u64>,
    /// The number of the next attempt.
    pub connect_seq: u64,
    /// The last failure of each server.
    pub last_errors: Map<Seq<char>, FailedConnect>,
}

impl<H> View for SharedMcpPool<H> {
    type V = PoolView<H>;

    closed spec fn view(&self) -> PoolView<H> {
        PoolView {
            handles: self.handles@,
            config: self.config@,
            config_dir: text::opt_text(self.config_dir),
            ref_counts: self.ref_counts@,
            connecting: self.connecting@,
            connect_seq: self.connect_seq,
            last_errors: self.last_errors@,
        }
    }
}

// ---------------------------------------------------------------------------
// Attempts
// ---------------------------------------------------------------------------

/// The number behind `n`; behind the largest comes zero.
pub open spec fn next_seq(n: u64) -> u64 {
    if n == u64::MAX {
        0
    } else {
        (n + 1) as u64
    }
}

/// The pool after somebody asked for a connection, and what they have to do.
/// At most one attempt per server is under way.
pub open spec fn begun<H>(p: PoolView<H>, name: Seq<char>) -> (PoolView<H>, ConnectAttempt) {
    if p.connecting.dom().contains(name) {
        (p, ConnectAttempt::Wait { seq: p.connecting[name] })
    } else if p.handles.dom().contains(name) {
        (p, ConnectAttempt::Connected)
    } else {
        (
            PoolView {
                connecting: p.connecting.insert(name, p.connect_seq),
                connect_seq: next_seq(p.connect_seq),
                ..p
            },
            ConnectAttempt::Leader { seq: p.connect_seq },
        )
    }
}

/// Whether an attempt is the one that is under way.
pub open spec fn is_current<H>(p: PoolView<H>, name: Seq<char>, seq: u64) -> bool {
    p.connecting.dom().contains(name) && p.connecting[name] == seq
}

/// The pool after an attempt ended: only the outcome of the attempt that is
/// under way counts.
pub open spec fn finished<H>(
    p: PoolView<H>,
    name: Seq<char>,
    seq: u64,
    result: Result<H, String>,
    now: u64,
) -> PoolView<H> {
    if is_current(p, name, seq) {
        match result {
            Ok(handle) => PoolView {
                handles: p.handles.insert(name, handle),
                connecting: p.connecting.remove(name),
                last_errors: p.last_errors.remove(name),
                ..p
            },
            Err(message) => PoolView {
                connecting: p.connecting.remove(name),
                last_errors: p.last_errors.insert(name, FailedConnect { message, failed_at: now }),
                ..p
            },
        }
    } else {
        p
    }
}

/// The pool without a server.
pub open spec fn without<H>(p: PoolView<H>, name: Seq<char>) -> PoolView<H> {
    PoolView {
        handles: p.handles.remove(name),
        ref_counts: p.ref_counts.remove(name),
        connecting: p.connecting.remove(name),
        last_errors: p.last_errors.remove(name),
        ..p
    }
}

/// The pool without any server; the configuration stays.
pub open spec fn emptied<H>(p: PoolView<H>) -> PoolView<H> {
    PoolView {
        handles: Map::empty(),
        ref_counts: Map::empty(),
        connecting: Map::empty(),
        last_errors: Map::empty(),
        ..p
    }
}

/// The time since a failure.
pub open spec fn elapsed(failed_at: u64, now: u64) -> int {
    if now < failed_at {
        0
    } else {
        now - failed_at
    }
}

/// Whether a server failed so lately that it is left alone.
pub open spec fn is_resting<H>(p: PoolView<H>, name: Seq<char>, now: u64) -> bool {
    &&& !p.handles.dom().contains(name)
    &&& p.last_errors.dom().contains(name)
    &&& elapsed(p.last_errors[name].failed_at, now) < FAILED_CONNECT_RETRY_COOLDOWN
}

/// The whole seconds for which a server is still left alone, at least one.
pub open spec fn rest_seconds(failed_at: u64, now: u64) -> int {
    let rest = (FAILED_CONNECT_RETRY_COOLDOWN - elapsed(failed_at, now)) / (SECOND as int);
    if rest < 1 {
        1
    } else {
        rest
    }
}

/// What is told of a server that is left alone.
pub open spec fn resting_message(failure: FailedConnect, now: u64) -> Seq<char> {
    failure.message@ + " (retry suppressed for ~"@ + text::decimal(
        rest_seconds(failure.failed_at, now) as nat,
    ) + "s after recent failure)"@
}

/// What a finished attempt came to: whether the connection is new to the one
/// who asks, or what is told.
pub open spec fn attempt_result<H>(p: PoolView<H>, name: Seq<char>, is_leader: bool) -> Result<
    bool,
    Seq<char>,
> {
    if p.handles.dom().contains(name) {
        Ok(is_leader)
    } else if p.last_errors.dom().contains(name) {
        Err(p.last_errors[name].message@)
    } else {
        Err(NO_HANDLE@)
    }
}

/// Whether a result says what a model of it says.
pub open spec fn says(r: Result<bool, String>, model: Result<bool, Seq<char>>) -> bool {
    match (r, model) {
        (Ok(a), Ok(b)) => a == b,
        (Err(a), Err(b)) => a@ == b,
        _ => false,
    }
}

impl<H> SharedMcpPool<H> {
    /// A pool of a configuration, which is for a directory.
    pub fn new(config: Vec<ServerEntry>, config_dir: Option<String>) -> (r: Self)
        ensures
            r@ == (PoolView::<H> {
                handles: Map::empty(),
                config: config@,
                config_dir: text::opt_text(config_dir),
                ref_counts: Map::empty(),
                connecting: Map::empty(),
                connect_seq: 1,
                last_errors: Map::empty(),
            }),
    {
        SharedMcpPool {
            handles: TextMap::new(),
            config,
            config_dir,
            ref_counts: TextMap::new(),
            connecting: TextMap::new(),
            connect_seq: 1,
            last_errors: TextMap::new(),
        }
    }

    /// Asks for a connection.
    pub fn begin_connect(&mut self, name: &str) -> (r: ConnectAttempt)
        ensures
            (final(self)@, r) == begun(old(self)@, name@),
    {
        if let Some(seq) = self.connecting.get(name) {
            return ConnectAttempt::Wait { seq: *seq };
        }
        if self.handles.contains_key(name) {
            return ConnectAttempt::Connected;
        }
        let seq: u64 = self.connect_seq;
        self.connect_seq = if seq == u64::MAX {
            0
        } else {
            seq + 1
        };
        let _ = self.connecting.insert(name, seq);
        ConnectAttempt::Leader { seq }
    }

    /// Reports how an attempt ended.
    pub fn finish_connect(
        &mut self,
        name: &str,
        seq: u64,
        result: Result<H, String>,
        now: u64,
    ) -> (r: Admission<H>)
        ensures
            final(self)@ == finished(old(self)@, name@, seq, result, now),
            r == if is_current(old(self)@, name@, seq) {
                Admission::Recorded
            } else {
                Admission::Discarded(
                    match result {
                        Ok(handle) => Some(handle),
                        Err(_) => None,
                    },
                )
            },
    {
        let current = match self.connecting.get(name) {
            Some(under_way) => *under_way == seq,
            None => false,
        };
        if !current {
            return Admission::Discarded(
                match result {
                    Ok(handle) => Some(handle),
                    Err(_) => None,
                },
            );
        }
        match result {
            Ok(handle) => {
                let _ = self.handles.insert(name, handle);
                let _ = self.last_errors.remove(name);
            },
            Err(message) => {
                let _ = self.last_errors.insert(name, FailedConnect { message, failed_at: now });
            },
        }
        let _ = self.connecting.remove(name);
        Admission::Recorded
    }

    /// What is told of a server that is left alone, where it is.
    pub fn recent_failure(&self, name: &str, now: u64) -> (r: Option<String>)
        ensures
            text::opt_text(r) == if is_resting(self@, name@, now) {
                Some(resting_message(self@.last_errors[name@], now))
            } else {
                None
            },
    {
        if self.handles.contains_key(name) {
            return None;
        }
        match self.last_errors.get(name) {
            None => None,
            Some(failure) => {
                let gone: u64 = if now < failure.failed_at {
                    0
                } else {
                    now - failure.failed_at
                };
                if gone >= FAILED_CONNECT_RETRY_COOLDOWN {
                    return None;
                }
                let rest: u64 = (FAILED_CONNECT_RETRY_COOLDOWN - gone) / SECOND;
                let seconds: u64 = if rest < 1 {
                    1
                } else {
                    rest
                };
                let number = decimal_of(seconds);
                Some(
                    cat4(
                        failure.message.as_str(),
                        " (retry suppressed for ~",
                        number.as_str(),
                        "s after recent failure)",
                    ),
                )
            },
        }
    }

    /// Asks for a connection, unless the server is left alone.
    pub fn ensure_connected(&mut self, name: &str, now: u64) -> (r: Result<ConnectAttempt, String>)
        ensures
            if is_resting(old(self)@, name@, now) {
                &&& final(self)@ == old(self)@
                &&& r matches Err(message) && message@ == resting_message(
                    old(self)@.last_errors[name@],
                    now,
                )
            } else {
                r matches Ok(attempt) && (final(self)@, attempt) == begun(old(self)@, name@)
            },
    {
        if let Some(message) = self.recent_failure(name, now) {
            return Err(message);
        }
        Ok(self.begin_connect(name))
    }

    /// What a finished attempt came to.
    pub fn connect_outcome(&self, name: &str, is_leader: bool) -> (r: Result<bool, String>)
        ensures
            says(r, attempt_result(self@, name@, is_leader)),
    {
        if self.handles.contains_key(name) {
            return Ok(is_leader);
        }
        match self.last_errors.get(name) {
            Some(failure) => Err(owned(failure.message.as_str())),
            None => Err(owned(NO_HANDLE)),
        }
    }

    /// Drops a server, and gives back its connection for it to be ended.
    pub fn disconnect_server(&mut self, name: &str) -> (r: Option<H>)
        ensures
            final(self)@ == without(old(self)@, name@),
            match r {
                Some(handle) => old(self)@.handles.dom().contains(name@)
                    && old(self)@.handles[name@] == handle,
                None => !old(self)@.handles.dom().contains(name@),
            },
    {
        let _ = self.connecting.remove(name);
        let handle = self.handles.remove(name);
        let _ = self.ref_counts.remove(name);
        let _ = self.last_errors.remove(name);
        handle
    }

    /// Drops every server, and gives back their connections for them to be
    /// ended.
    pub fn disconnect_all(&mut self) -> (r: Vec<(String, H)>)
        ensures
            final(self)@ == emptied(old(self)@),
            forall|k: Seq<char>| #[trigger]
                names_in(r@).contains(k) <==> old(self)@.handles.dom().contains(k),
            names_in(r@).no_duplicates(),
            forall|i: int|
                0 <= i < r@.len() ==> old(self)@.handles[(#[trigger] r@[i]).0@] == r@[i].1,
    {
        let names = self.handles.keys();
        let ghost all = self.handles@;
        let ghost keys = text::texts(names@);
        let mut r: Vec<(String, H)> = Vec::new();
        let mut k: usize = 0;
        while k < names.len()
            invariant
                k <= names@.len(),
                keys == text::texts(names@),
                keys.no_duplicates(),
                all == old(self)@.handles,
                forall|x: Seq<char>| #[trigger] keys.contains(x) <==> all.dom().contains(x),
                forall|x: Seq<char>| #[trigger]
                    self.handles@.dom().contains(x) <==> all.dom().contains(x) && !keys.take(
                        k as int,
                    ).contains(x),
                forall|x: Seq<char>| #[trigger]
                    self.handles@.dom().contains(x) ==> self.handles@[x] == all[x],
                r@.len() == k,
                forall|i: int|
                    0 <= i < k ==> (#[trigger] r@[i]).0@ == keys[i] && r@[i].1 == all[keys[i]],
                (PoolView { handles: all, ..self@ }) == old(self)@,
            decreases names@.len() - k,
        {
            let ghost before = self.handles@;
            let ghost key = names@[k as int]@;
            proof {
                assert(keys[k as int] == key);
                assert(keys.contains(key));
                assert(!keys.take(k as int).contains(key)) by {
                    if keys.take(k as int).contains(key) {
                        let j = choose|j: int|
                            0 <= j < keys.take(k as int).len() && keys.take(k as int)[j] == key;
                        assert(keys[j] == keys[k as int]);
                    }
                }
            }
            let taken = self.handles.remove(names[k].as_str());
            if let Some(handle) = taken {
                r.push((owned(names[k].as_str()), handle));
            }
            proof {
                assert(keys.take(k + 1) =~= keys.take(k as int).push(key));
                assert forall|x: Seq<char>| #[trigger]
                    self.handles@.dom().contains(x) <==> all.dom().contains(x) && !keys.take(
                        k + 1,
                    ).contains(x) by {
                    assert(before.dom().contains(x) <==> all.dom().contains(x) && !keys.take(
                        k as int,
                    ).contains(x));
                    lemma_in_push(keys.take(k as int), key, x);
                }
                assert forall|x: Seq<char>| #[trigger]
                    self.handles@.dom().contains(x) implies self.handles@[x] == all[x] by {
                    assert(before.dom().contains(x));
                }
            }
            k = k + 1;
        }
        proof {
            assert(keys.take(k as int) =~= keys);
            assert(names_in(r@) =~= keys);
            assert(self.handles@ =~= Map::<Seq<char>, H>::empty()) by {
                assert forall|x: Seq<char>| !self.handles@.dom().contains(x) by {
                    assert(keys.contains(x) <==> all.dom().contains(x));
                }
                assert(self.handles@.dom() =~= Set::<Seq<char>>::empty());
            }
        }
        self.connecting = TextMap::new();
        self.ref_counts = TextMap::new();
        self.last_errors = TextMap::new();
        r
    }

    /// Takes a new configuration for the same directory; every server is
    /// dropped.
    pub fn reload(&mut self, config: Vec<ServerEntry>) -> (r: Vec<(String, H)>)
        ensures
            final(self)@ == (PoolView { config: config@, ..emptied(old(self)@) }),
            forall|k: Seq<char>| #[trigger]
                names_in(r@).contains(k) <==> old(self)@.handles.dom().contains(k),
            names_in(r@).no_duplicates(),
            forall|i: int|
                0 <= i < r@.len() ==> old(self)@.handles[(#[trigger] r@[i]).0@] == r@[i].1,
    {
        let dropped = self.disconnect_all();
        self.config = config;
        dropped
    }
}

proof fn lemma_in_push<A>(s: Seq<A>, x: A, y: A)
    ensures
        s.push(x).contains(y) <==> (s.contains(y) || x == y),
{
    if s.contains(y) {
        let i = choose|i: int| 0 <= i < s.len() && s[i] == y;
        assert(s.push(x)[i] == y);
    }
    assert(s.push(x)[s.len() as int] == x);
}

/// The names in a list of named things.
pub open spec fn names_in<T>(v: Seq<(String, T)>) -> Seq<Seq<char>> {
    Seq::new(v.len(), |i: int| v[i].0@)
}

// ---------------------------------------------------------------------------
// Sessions and their handles
// ---------------------------------------------------------------------------

/// How many sessions hold a server.
pub open spec fn count_in(counts: Map<Seq<char>, usize>, name: Seq<char>) -> int {
    if counts.dom().contains(name) {
        counts[name] as int
    } else {
        0
    }
}

/// Whether one more session can be counted for every connected server.
pub open spec fn has_room<H>(p: PoolView<H>) -> bool {
    forall|name: Seq<char>| #[trigger]
        p.handles.dom().contains(name) ==> count_in(p.ref_counts, name) < usize::MAX
}

/// The counts after one more session took every connected server.
pub open spec fn counted<H>(p: PoolView<H>) -> Map<Seq<char>, usize> {
    Map::new(
        |name: Seq<char>|
            p.ref_counts.dom().contains(name) || p.handles.dom().contains(name),
        |name: Seq<char>|
            if p.handles.dom().contains(name) {
                (count_in(p.ref_counts, name) + 1) as usize
            } else {
                p.ref_counts[name]
            },
    )
}

/// The counts after a session gave back the first `k` of these servers: a
/// count does not go below zero, and a server that is not counted stays so.
pub open spec fn given_back(
    counts: Map<Seq<char>, usize>,
    names: Seq<Seq<char>>,
    k: int,
) -> Map<Seq<char>, usize>
    decreases k,
{
    if k <= 0 {
        counts
    } else {
        let before = given_back(counts, names, k - 1);
        let name = names[k - 1];
        if before.dom().contains(name) {
            before.insert(
                name,
                if before[name] == 0 {
                    0
                } else {
                    (before[name] - 1) as usize
                },
            )
        } else {
            before
        }
    }
}

impl<H> SharedMcpPool<H> {
    /// Whether one more session can be counted for every connected server.
    pub fn can_acquire(&self) -> (r: bool)
        ensures
            r == has_room(self@),
    {
        let names = self.handles.keys();
        let ghost keys = text::texts(names@);
        let mut k: usize = 0;
        while k < names.len()
            invariant
                k <= names@.len(),
                keys == text::texts(names@),
                forall|x: Seq<char>| #[trigger]
                    keys.contains(x) <==> self@.handles.dom().contains(x),
                forall|i: int|
                    0 <= i < k ==> count_in(self@.ref_counts, #[trigger] keys[i]) < usize::MAX,
            decreases names@.len() - k,
        {
            assert(keys[k as int] == names@[k as int]@);
            if let Some(n) = self.ref_counts.get(names[k].as_str()) {
                if *n == usize::MAX {
                    assert(keys.contains(keys[k as int]));
                    return false;
                }
            }
            k = k + 1;
        }
        assert(has_room(self@)) by {
            assert forall|name: Seq<char>| #[trigger]
                self@.handles.dom().contains(name) implies count_in(self@.ref_counts, name)
                < usize::MAX by {
                assert(keys.contains(name));
                let i = choose|i: int| 0 <= i < keys.len() && keys[i] == name;
                assert(count_in(self@.ref_counts, keys[i]) < usize::MAX);
            }
        }
        true
    }

    /// Takes every connected server for a session, and gives their names.
    pub fn acquire_handles(&mut self) -> (r: Vec<String>)
        requires
            has_room(old(self)@),
        ensures
            final(self)@ == (PoolView { ref_counts: counted(old(self)@), ..old(self)@ }),
            text::texts(r@).no_duplicates(),
            forall|k: Seq<char>| #[trigger]
                text::texts(r@).contains(k) <==> old(self)@.handles.dom().contains(k),
    {
        let names = self.handles.keys();
        let ghost keys = text::texts(names@);
        let ghost before = self@;
        let mut k: usize = 0;
        while k < names.len()
            invariant
                k <= names@.len(),
                before == old(self)@,
                has_room(before),
                keys == text::texts(names@),
                keys.no_duplicates(),
                forall|x: Seq<char>| #[trigger]
                    keys.contains(x) <==> before.handles.dom().contains(x),
                (PoolView { ref_counts: before.ref_counts, ..self@ }) == before,
                forall|x: Seq<char>| #[trigger]
                    self@.ref_counts.dom().contains(x) <==> before.ref_counts.dom().contains(x)
                        || keys.take(k as int).contains(x),
                forall|x: Seq<char>| #[trigger]
                    self@.ref_counts.dom().contains(x) ==> self@.ref_counts[x] == count_in(
                        before.ref_counts,
                        x,
                    ) + if keys.take(k as int).contains(x) {
                        1int
                    } else {
                        0int
                    },
            decreases names@.len() - k,
        {
            let ghost key = names@[k as int]@;
            let ghost counts = self@.ref_counts;
            proof {
                assert(keys[k as int] == key);
                assert(keys.contains(key));
                assert(before.handles.dom().contains(key));
                assert(!keys.take(k as int).contains(key)) by {
                    if keys.take(k as int).contains(key) {
                        let j = choose|j: int|
                            0 <= j < keys.take(k as int).len() && keys.take(k as int)[j] == key;
                        assert(keys[j] == keys[k as int]);
                    }
                }
            }
            let n: usize = match self.ref_counts.get(names[k].as_str()) {
                Some(n) => *n,
                None => 0,
            };
            assert(n == count_in(before.ref_counts, key));
            let _ = self.ref_counts.insert(names[k].as_str(), n + 1);
            proof {
                assert(keys.take(k + 1) =~= keys.take(k as int).push(key));
                assert forall|x: Seq<char>| #[trigger]
                    self@.ref_counts.dom().contains(x) <==> before.ref_counts.dom().contains(x)
                        || keys.take(k + 1).contains(x) by {
                    lemma_in_push(keys.take(k as int), key, x);
                    assert(counts.dom().contains(x) <==> before.ref_counts.dom().contains(x)
                        || keys.take(k as int).contains(x));
                }
                assert forall|x: Seq<char>| #[trigger]
                    self@.ref_counts.dom().contains(x) implies self@.ref_counts[x] == count_in(
                    before.ref_counts,
                    x,
                ) + if keys.take(k + 1).contains(x) {
                    1int
                } else {
                    0int
                } by {
                    lemma_in_push(keys.take(k as int), key, x);
                    if x != key {
                        assert(counts.dom().contains(x));
                    }
                }
            }
            k = k + 1;
        }
        proof {
            assert(keys.take(k as int) =~= keys);
            assert(self@.ref_counts =~= counted(before));
        }
        names
    }

    /// Gives back servers that a session took.
    pub fn release_handles(&mut self, names: &Vec<String>)
        ensures
            final(self)@ == (PoolView {
                ref_counts: given_back(
                    old(self)@.ref_counts,
                    text::texts(names@),
                    names@.len() as int,
                ),
                ..old(self)@
            }),
    {
        let ghost before = self@;
        let ghost all = text::texts(names@);
        let mut k: usize = 0;
        while k < names.len()
            invariant
                k <= names@.len(),
                all == text::texts(names@),
                self@ == (PoolView {
                    ref_counts: given_back(before.ref_counts, all, k as int),
                    ..before
                }),
            decreases names@.len() - k,
        {
            assert(all[k as int] == names@[k as int]@);
            let held: Option<usize> = match self.ref_counts.get(names[k].as_str()) {
                Some(n) => Some(*n),
                None => None,
            };
            if let Some(n) = held {
                let fewer: usize = if n == 0 {
                    0
                } else {
                    n - 1
                };
                let _ = self.ref_counts.insert(names[k].as_str(), fewer);
            }
            k = k + 1;
        }
    }

    /// What a connected server is reached by.
    pub fn get_handle(&self, name: &str) -> (r: Option<&H>)
        ensures
            match r {
                Some(handle) => self@.handles.dom().contains(name@) && self@.handles[name@]
                    == *handle,
                None => !self@.handles.dom().contains(name@),
            },
    {
        self.handles.get(name)
    }

    /// What a server is reached by for a call, or what is told where it is not
    /// connected.
    pub fn handle_for_call(&self, server: &str) -> (r: Result<&H, String>)
        ensures
            match r {
                Ok(handle) => self@.handles.dom().contains(server@) && self@.handles[server@]
                    == *handle,
                Err(message) => !self@.handles.dom().contains(server@) && message@
                    == "MCP server '"@ + server@ + "' not connected"@,
            },
    {
        match self.handles.get(server) {
            Some(handle) => Ok(handle),
            None => Err(cat3("MCP server '", server, "' not connected")),
        }
    }

    /// The names of the connected servers.
    pub fn connected_servers(&self) -> (r: Vec<String>)
        ensures
            text::texts(r@).no_duplicates(),
            forall|k: Seq<char>| #[trigger]
                text::texts(r@).contains(k) <==> self@.handles.dom().contains(k),
    {
        self.handles.keys()
    }

    /// Whether any server is connected.
    pub fn has_connections(&self) -> (r: bool)
        ensures
            r == (self@.handles != Map::<Seq<char>, H>::empty()),
    {
        !self.handles.is_empty()
    }

    /// How many sessions hold a server, where any ever did.
    pub fn ref_count(&self, name: &str) -> (r: Option<usize>)
        ensures
            match r {
                Some(n) => self@.ref_counts.dom().contains(name@) && self@.ref_counts[name@] == n,
                None => !self@.ref_counts.dom().contains(name@),
            },
    {
        match self.ref_counts.get(name) {
            Some(n) => Some(*n),
            None => None,
        }
    }

    /// How many sessions hold each server.
    pub fn ref_counts(&self) -> (r: Vec<(String, usize)>)
        ensures
            names_in(r@).no_duplicates(),
            forall|k: Seq<char>| #[trigger]
                names_in(r@).contains(k) <==> self@.ref_counts.dom().contains(k),
            forall|i: int|
                0 <= i < r@.len() ==> self@.ref_counts[(#[trigger] r@[i]).0@] == r@[i].1,
    {
        let names = self.ref_counts.keys();
        let ghost keys = text::texts(names@);
        let mut r: Vec<(String, usize)> = Vec::new();
        let mut k: usize = 0;
        while k < names.len()
            invariant
                k <= names@.len(),
                keys == text::texts(names@),
                forall|x: Seq<char>| #[trigger]
                    keys.contains(x) <==> self@.ref_counts.dom().contains(x),
                r@.len() == k,
                forall|i: int|
                    0 <= i < k ==> (#[trigger] r@[i]).0@ == keys[i] && r@[i].1
                        == self@.ref_counts[keys[i]],
            decreases names@.len() - k,
        {
            assert(keys[k as int] == names@[k as int]@);
            assert(keys.contains(keys[k as int]));
            if let Some(n) = self.ref_counts.get(names[k].as_str()) {
                r.push((owned(names[k].as_str()), *n));
            }
            k = k + 1;
        }
        assert(names_in(r@) =~= keys);
        r
    }

    /// The configuration.
    pub fn config(&self) -> (r: &Vec<ServerEntry>)
        ensures
            r@ == self@.config,
    {
        &self.config
    }

    /// The directory that the configuration is for.
    pub fn config_dir(&self) -> (r: Option<String>)
        ensures
            text::opt_text(r) == self@.config_dir,
    {
        clone_opt(&self.config_dir)
    }

    /// The servers that are connected without being asked for.
    pub fn connect_targets(&self) -> (r: Vec<String>)
        ensures
            text::texts(r@) == targets(self@.config, self@.config.len() as int),
    {
        let mut r: Vec<String> = Vec::new();
        let mut k: usize = 0;
        assert(text::texts(r@) =~= Seq::<Seq<char>>::empty());
        while k < self.config.len()
            invariant
                k <= self.config@.len(),
                text::texts(r@) == targets(self.config@, k as int),
            decreases self.config@.len() - k,
        {
            let server = &self.config[k];
            if server.enabled && server.shared {
                let name = owned(server.name.as_str());
                proof {
                    text::lemma_texts_push(r@, name);
                }
                r.push(name);
            }
            k = k + 1;
        }
        r
    }
}

// ---------------------------------------------------------------------------
// Connecting everything
// ---------------------------------------------------------------------------

/// The servers among the first `k` that are connected without being asked
/// for: those that are enabled and shared.
pub open spec fn targets(config: Seq<ServerEntry>, k: int) -> Seq<Seq<char>>
    decreases k,
{
    if k <= 0 {
        Seq::empty()
    } else if config[k - 1].enabled && config[k - 1].shared {
        targets(config, k - 1).push(config[k - 1].name@)
    } else {
        targets(config, k - 1)
    }
}

/// How many of the first `k` attempts made a new connection.
pub open spec fn new_connections(results: Seq<(String, Result<bool, String>)>, k: int) -> int
    decreases k,
{
    if k <= 0 {
        0
    } else {
        new_connections(results, k - 1) + if results[k - 1].1 == Ok::<bool, String>(true) {
            1int
        } else {
            0int
        }
    }
}

/// The failures among the first `k` attempts.
pub open spec fn failures(results: Seq<(String, Result<bool, String>)>, k: int) -> Seq<
    (Seq<char>, Seq<char>),
>
    decreases k,
{
    if k <= 0 {
        Seq::empty()
    } else {
        match results[k - 1].1 {
            Ok(_) => failures(results, k - 1),
            Err(message) => failures(results, k - 1).push((results[k - 1].0@, message@)),
        }
    }
}

/// What connecting everything came to: the new connections, or where there
/// are none all that stand, and the failures.
pub fn connect_report(results: Vec<(String, Result<bool, String>)>, connected: usize) -> (r: (
    usize,
    Vec<(String, String)>,
))
    ensures
        ({
            let made = new_connections(results@, results@.len() as int);
            r.0 == if made == 0 {
                connected as int
            } else {
                made
            }
        }),
        text::pairs(r.1@) == failures(results@, results@.len() as int),
{
    let mut made: usize = 0;
    let mut failed: Vec<(String, String)> = Vec::new();
    let mut k: usize = 0;
    assert(text::pairs(failed@) =~= Seq::<(Seq<char>, Seq<char>)>::empty());
    while k < results.len()
        invariant
            k <= results@.len(),
            made <= k,
            made == new_connections(results@, k as int),
            text::pairs(failed@) == failures(results@, k as int),
        decreases results@.len() - k,
    {
        match &results[k].1 {
            Ok(new) => {
                if *new {
                    made = made + 1;
                }
            },
            Err(message) => {
                let ghost before = failed@;
                failed.push((owned(results[k].0.as_str()), owned(message.as_str())));
                assert(text::pairs(failed@) =~= text::pairs(before).push(
                    (results@[k as int].0@, message@),
                ));
            },
        }
        k = k + 1;
    }
    let count: usize = if made == 0 {
        connected
    } else {
        made
    };
    (count, failed)
}

/// What is told of a server that could not be connected.
pub fn connect_failure(name: &str) -> (r: String)
    ensures
        r@ == "Failed to connect to MCP server '"@ + name@ + "'"@,
{
    cat3("Failed to connect to MCP server '", name, "'")
}

// ---------------------------------------------------------------------------
// Tools
// ---------------------------------------------------------------------------

/// How many tools of the first `k` a server has.
pub open spec fn tools_of(tools: Seq<(Seq<char>, Seq<char>)>, server: Seq<char>, k: int) -> int
    decreases k,
{
    if k <= 0 {
        0
    } else {
        tools_of(tools, server, k - 1) + if tools[k - 1].0 == server {
            1int
        } else {
            0int
        }
    }
}

/// The servers that have a tool, and how many each has.
pub open spec fn tool_tally(tools: Seq<(Seq<char>, Seq<char>)>) -> Map<Seq<char>, usize> {
    Map::new(
        |server: Seq<char>| tools_of(tools, server, tools.len() as int) > 0,
        |server: Seq<char>| tools_of(tools, server, tools.len() as int) as usize,
    )
}

proof fn lemma_tools_of(tools: Seq<(Seq<char>, Seq<char>)>, server: Seq<char>, k: int)
    requires
        0 <= k,
    ensures
        0 <= tools_of(tools, server, k) <= k,
    decreases k,
{
    if k > 0 {
        lemma_tools_of(tools, server, k - 1);
    }
}

/// How many tools each server has, out of all tools with their servers.
pub fn tool_counts(tools: &Vec<(String, String)>) -> (r: TextMap<usize>)
    ensures
        r@ == tool_tally(text::pairs(tools@)),
{
    let ghost all = text::pairs(tools@);
    let mut r: TextMap<usize> = TextMap::new();
    let mut k: usize = 0;
    while k < tools.len()
        invariant
            k <= tools@.len(),
            all == text::pairs(tools@),
            forall|server: Seq<char>| #[trigger]
                r@.dom().contains(server) <==> tools_of(all, server, k as int) > 0,
            forall|server: Seq<char>| #[trigger]
                r@.dom().contains(server) ==> r@[server] == tools_of(all, server, k as int),
        decreases tools@.len() - k,
    {
        let ghost before = r@;
        let ghost key = tools@[k as int].0@;
        assert(all[k as int].0 == key);
        let n: usize = match r.get(tools[k].0.as_str()) {
            Some(n) => *n,
            None => 0,
        };
        proof {
            lemma_tools_of(all, key, k as int);
            assert(before.dom().contains(key) <==> tools_of(all, key, k as int) > 0);
            assert(n == tools_of(all, key, k as int));
        }
        let _ = r.insert(tools[k].0.as_str(), n + 1);
        proof {
            assert forall|server: Seq<char>| #[trigger]
                r@.dom().contains(server) <==> tools_of(all, server, k + 1) > 0 by {
                assert(before.dom().contains(server) <==> tools_of(all, server, k as int) > 0);
            }
            assert forall|server: Seq<char>| #[trigger]
                r@.dom().contains(server) implies r@[server] == tools_of(all, server, k + 1) by {
                assert(before.dom().contains(server) <==> tools_of(all, server, k as int) > 0);
            }
        }
        k = k + 1;
    }
    assert(r@ =~= tool_tally(all));
    r
}

/// The tools of all servers, each with its server, out of what every
/// connected server offers.
pub open spec fn tool_rows(offers: Seq<(String, Vec<String>)>, k: int) -> Seq<
    (Seq<char>, Seq<char>),
>
    decreases k,
{
    if k <= 0 {
        Seq::empty()
    } else {
        let (server, tools) = offers[k - 1];
        tool_rows(offers, k - 1) + Seq::new(tools@.len(), |i: int| (server@, tools@[i]@))
    }
}

/// The tools of all servers, each with its server.
pub fn all_tools(offers: &Vec<(String, Vec<String>)>) -> (r: Vec<(String, String)>)
    ensures
        text::pairs(r@) == tool_rows(offers@, offers@.len() as int),
{
    let mut r: Vec<(String, String)> = Vec::new();
    let mut k: usize = 0;
    assert(text::pairs(r@) =~= Seq::<(Seq<char>, Seq<char>)>::empty());
    while k < offers.len()
        invariant
            k <= offers@.len(),
            text::pairs(r@) == tool_rows(offers@, k as int),
        decreases offers@.len() - k,
    {
        let ghost before = text::pairs(r@);
        let server = offers[k].0.as_str();
        let tools = &offers[k].1;
        let ghost rows = Seq::new(tools@.len(), |i: int| (server@, tools@[i]@));
        let mut i: usize = 0;
        assert(before + rows.take(0) =~= before);
        while i < tools.len()
            invariant
                i <= tools@.len(),
                rows == Seq::new(tools@.len(), |i: int| (server@, tools@[i]@)),
                text::pairs(r@) == before + rows.take(i as int),
            decreases tools@.len() - i,
        {
            let ghost was = r@;
            r.push((owned(server), owned(tools[i].as_str())));
            i = i + 1;
            proof {
                assert(text::pairs(r@) =~= text::pairs(was).push(rows[i - 1]));
                assert(text::pairs(r@) =~= before + rows.take(i as int));
            }
        }
        assert(rows.take(i as int) =~= rows);
        k = k + 1;
    }
    r
}

// ---------------------------------------------------------------------------
// Laws
// ---------------------------------------------------------------------------

/// Whether every attempt that is under way has an earlier number than the
/// next one will have.
pub open spec fn numbers_are_fresh<H>(p: PoolView<H>) -> bool {
    forall|name: Seq<char>| #[trigger]
        p.connecting.dom().contains(name) ==> p.connecting[name] < p.connect_seq
}

/// Asking again while an attempt is under way starts no second one: whoever
/// asks waits for the attempt that is under way.
pub proof fn law_one_attempt_per_server<H>(p: PoolView<H>, name: Seq<char>)
    requires
        !p.connecting.dom().contains(name),
        !p.handles.dom().contains(name),
    ensures
        begun(p, name).1 == (ConnectAttempt::Leader { seq: p.connect_seq }),
        begun(begun(p, name).0, name) == (
            begun(p, name).0,
            ConnectAttempt::Wait { seq: p.connect_seq },
        ),
{
}

/// An attempt whose server was dropped meanwhile changes nothing when it
/// ends: it does not bring the server back.
pub proof fn law_dropped_servers_stay_dropped<H>(
    p: PoolView<H>,
    name: Seq<char>,
    seq: u64,
    result: Result<H, String>,
    now: u64,
)
    ensures
        finished(without(p, name), name, seq, result, now) == without(p, name),
        finished(emptied(p), name, seq, result, now) == emptied(p),
{
}

/// Once another attempt leads, an earlier one changes nothing when it ends.
pub proof fn law_late_attempts_are_discarded<H>(
    p: PoolView<H>,
    name: Seq<char>,
    seq: u64,
    result: Result<H, String>,
    now: u64,
)
    requires
        numbers_are_fresh(p),
        is_current(p, name, seq),
    ensures
        ({
            let again = begun(without(p, name), name);
            &&& again.1 is Leader
            &&& finished(again.0, name, seq, result, now) == again.0
        }),
{
}

/// The end of the attempt that is under way releases the server: it is
/// connected, or its failure is on record, and the next who asks does not
/// wait.
pub proof fn law_finished_attempts_strand_nobody<H>(
    p: PoolView<H>,
    name: Seq<char>,
    seq: u64,
    result: Result<H, String>,
    now: u64,
)
    requires
        is_current(p, name, seq),
    ensures
        ({
            let q = finished(p, name, seq, result, now);
            &&& !q.connecting.dom().contains(name)
            &&& !(begun(q, name).1 is Wait)
            &&& match result {
                Ok(handle) => q.handles.dom().contains(name) && q.handles[name] == handle
                    && begun(q, name).1 is Connected && attempt_result(q, name, true) == Ok::<
                    bool,
                    Seq<char>,
                >(true),
                Err(message) => !p.handles.dom().contains(name) ==> attempt_result(q, name, true)
                    == Err::<bool, Seq<char>>(message@),
            }
        }),
{
}

/// The numbers of attempts stay fresh, as long as they do not start over.
pub proof fn law_numbers_stay_fresh<H>(
    p: PoolView<H>,
    name: Seq<char>,
    seq: u64,
    result: Result<H, String>,
    now: u64,
)
    requires
        numbers_are_fresh(p),
    ensures
        p.connect_seq < u64::MAX ==> numbers_are_fresh(begun(p, name).0),
        numbers_are_fresh(finished(p, name, seq, result, now)),
        numbers_are_fresh(without(p, name)),
        numbers_are_fresh(emptied(p)),
{
}

/// A server that failed is left alone for the whole cooldown, and no longer.
pub proof fn law_failures_rest<H>(
    p: PoolView<H>,
    name: Seq<char>,
    seq: u64,
    message: String,
    failed_at: u64,
    now: u64,
)
    requires
        is_current(p, name, seq),
        !p.handles.dom().contains(name),
        failed_at <= now,
    ensures
        is_resting(finished(p, name, seq, Err(message), failed_at), name, now) <==> now - failed_at
            < FAILED_CONNECT_RETRY_COOLDOWN,
{
}

/// What a session took and gave back leaves the counts as they were.
pub proof fn law_given_back_is_not_counted<H>(
    p: PoolView<H>,
    names: Seq<Seq<char>>,
    name: Seq<char>,
)
    requires
        has_room(p),
        names.no_duplicates(),
        forall|k: Seq<char>| #[trigger] names.contains(k) <==> p.handles.dom().contains(k),
    ensures
        count_in(given_back(counted(p), names, names.len() as int), name) == count_in(
            p.ref_counts,
            name,
        ),
{
    lemma_given_back(counted(p), names, name, names.len() as int);
    assert(names.take(names.len() as int) =~= names);
    assert(names.contains(name) <==> p.handles.dom().contains(name));
}

proof fn lemma_given_back(
    counts: Map<Seq<char>, usize>,
    names: Seq<Seq<char>>,
    name: Seq<char>,
    k: int,
)
    requires
        0 <= k <= names.len(),
        names.no_duplicates(),
    ensures
        given_back(counts, names, k).dom() == counts.dom(),
        count_in(given_back(counts, names, k), name) == if names.take(k).contains(name)
            && count_in(counts, name) > 0 {
            count_in(counts, name) - 1
        } else {
            count_in(counts, name)
        },
    decreases k,
{
    if k > 0 {
        lemma_given_back(counts, names, name, k - 1);
        let key = names[k - 1];
        assert(names.take(k) =~= names.take(k - 1).push(key));
        lemma_in_push(names.take(k - 1), key, name);
        if name == key {
            assert(!names.take(k - 1).contains(name)) by {
                let upto = names.take(k - 1);
                if upto.contains(name) {
                    let j = choose|j: int| 0 <= j < upto.len() && upto[j] == name;
                    assert(names[j] == names[k - 1]);
                }
            }
        }
        assert(given_back(counts, names, k).dom() =~= counts.dom());
    } else {
        assert(names.take(0).len() == 0);
    }
}

proof fn lemma_targets(config: Seq<ServerEntry>, k: int)
    requires
        0 <= k <= config.len(),
    ensures
        forall|name: Seq<char>| #[trigger]
            targets(config, k).contains(name) ==> exists|i: int|
                0 <= i < k && (#[trigger] config[i]).name@ == name && config[i].enabled
                    && config[i].shared,
    decreases k,
{
    if k > 0 {
        lemma_targets(config, k - 1);
        assert forall|name: Seq<char>| #[trigger] targets(config, k).contains(name) implies exists|
            i: int,
        |
            0 <= i < k && (#[trigger] config[i]).name@ == name && config[i].enabled
                && config[i].shared by {
            if config[k - 1].enabled && config[k - 1].shared {
                lemma_in_push(targets(config, k - 1), config[k - 1].name@, name);
            }
            if targets(config, k - 1).contains(name) {
                let i = choose|i: int|
                    0 <= i < k - 1 && (#[trigger] config[i]).name@ == name && config[i].enabled
                        && config[i].shared;
                assert(config[i].name@ == name);
            } else {
                assert(config[k - 1].name@ == name);
            }
        }
    }
}

/// Only servers that are enabled and shared are connected without being asked
/// for: a disabled one stays configured, and one that sessions do not share is
/// never in the pool.
pub proof fn law_only_shared_servers_are_pooled(config: Seq<ServerEntry>, name: Seq<char>)
    requires
        targets(config, config.len() as int).contains(name),
    ensures
        exists|i: int|
            0 <= i < config.len() && (#[trigger] config[i]).name@ == name && config[i].enabled
                && config[i].shared,
{
    lemma_targets(config, config.len() as int);
}

/// What happens to one server leaves the others as they were: connecting it,
/// the end of an attempt, and dropping it.
pub proof fn law_other_servers_are_left_alone<H>(
    p: PoolView<H>,
    name: Seq<char>,
    other: Seq<char>,
    seq: u64,
    result: Result<H, String>,
    now: u64,
)
    requires
        other != name,
    ensures
        same_at(p, begun(p, name).0, other),
        same_at(p, finished(p, name, seq, result, now), other),
        same_at(p, without(p, name), other),
        begun(p, name).0.handles == p.handles && begun(p, name).0.last_errors == p.last_errors
            && begun(p, name).0.ref_counts == p.ref_counts,
        finished(p, name, seq, result, now).ref_counts == p.ref_counts && finished(
            p,
            name,
            seq,
            result,
            now,
        ).connect_seq == p.connect_seq,
        without(p, name).connect_seq == p.connect_seq && without(p, name).config == p.config,
        begun(p, name).0.config == p.config && finished(p, name, seq, result, now).config
            == p.config,
{
}

/// Whether two pools know the same of a server.
pub open spec fn same_at<H>(p: PoolView<H>, q: PoolView<H>, name: Seq<char>) -> bool {
    &&& p.handles.dom().contains(name) == q.handles.dom().contains(name)
    &&& p.handles.dom().contains(name) ==> p.handles[name] == q.handles[name]
    &&& p.ref_counts.dom().contains(name) == q.ref_counts.dom().contains(name)
    &&& p.ref_counts.dom().contains(name) ==> p.ref_counts[name] == q.ref_counts[name]
    &&& p.connecting.dom().contains(name) == q.connecting.dom().contains(name)
    &&& p.connecting.dom().contains(name) ==> p.connecting[name] == q.connecting[name]
    &&& p.last_errors.dom().contains(name) == q.last_errors.dom().contains(name)
    &&& p.last_errors.dom().contains(name) ==> p.last_errors[name] == q.last_errors[name]
}

/// A server that is dropped is gone with its count and its failure, and so is
/// every server when all are dropped; a connected server is not connected
/// again, and an attempt that goes on is waited for under its number.
pub proof fn law_dropped_servers_leave_nothing<H>(p: PoolView<H>, name: Seq<char>, any: Seq<char>)
    ensures
        !without(p, name).handles.dom().contains(name),
        !without(p, name).ref_counts.dom().contains(name),
        !without(p, name).connecting.dom().contains(name),
        !without(p, name).last_errors.dom().contains(name),
        !emptied(p).handles.dom().contains(any) && !emptied(p).ref_counts.dom().contains(any)
            && !emptied(p).connecting.dom().contains(any) && !emptied(p).last_errors.dom().contains(
            any,
        ),
        p.connecting.dom().contains(name) ==> begun(p, name) == (
            p,
            ConnectAttempt::Wait { seq: p.connecting[name] },
        ),
        !p.connecting.dom().contains(name) && p.handles.dom().contains(name) ==> begun(p, name) == (
            p,
            ConnectAttempt::Connected,
        ),
        begun(p, name).1 is Leader ==> begun(p, name).0.connect_seq == if p.connect_seq
            == u64::MAX {
            0
        } else {
            (p.connect_seq + 1) as u64
        },
{
}

/// What an attempt came to: a server that is connected now succeeds, newly so
/// only for the one who connected it; else the failure is told word for word.
pub proof fn law_attempts_come_to_what_is_there<H>(p: PoolView<H>, name: Seq<char>, is_leader: bool)
    ensures
        p.handles.dom().contains(name) ==> attempt_result(p, name, is_leader) == Ok::<
            bool,
            Seq<char>,
        >(is_leader),
        !p.handles.dom().contains(name) ==> attempt_result(p, name, is_leader) is Err,
        !p.handles.dom().contains(name) && p.last_errors.dom().contains(name) ==> attempt_result(
            p,
            name,
            is_leader,
        ) == Err::<bool, Seq<char>>(p.last_errors[name].message@),
{
}

/// A server that failed rests for thirty seconds, unless it is connected. While it rests the failure is told with the whole seconds left,
/// and never with less than one.
pub proof fn law_resting_servers_tell_how_long<H>(p: PoolView<H>, name: Seq<char>, now: u64)
    ensures
        is_resting(p, name, now) <==> !p.handles.dom().contains(name) && p.last_errors.dom().contains(
            name,
        ) && now < p.last_errors[name].failed_at + 30_000_000_000int,
        ({
            let failure = p.last_errors[name];
            let left = failure.failed_at + 30_000_000_000int - now;
            let told = rest_seconds(failure.failed_at, now);
            &&& told >= 1
            &&& failure.failed_at <= now && left >= 1_000_000_000 ==> told * 1_000_000_000 <= left
                && left < (told + 1) * 1_000_000_000
            &&& failure.failed_at <= now && left < 1_000_000_000 ==> told == 1
            &&& text::starts_with(resting_message(failure, now), failure.message@)
            &&& text::contains(
                resting_message(failure, now),
                "~"@ + text::decimal(told as nat) + "s"@,
            )
        }),
{
    let failure = p.last_errors[name];
    let told = rest_seconds(failure.failed_at, now);
    let a = " (retry suppressed for ~"@;
    let b = "s after recent failure)"@;
    let number = text::decimal(told as nat);
    let message = resting_message(failure, now);
    assert(message =~= failure.message@ + (a + number + b));
    text::law_stripping_undoes_putting(a + number + b, failure.message@);
    reveal_strlit(" (retry suppressed for ~");
    reveal_strlit("s after recent failure)");
    reveal_strlit("~");
    reveal_strlit("s");
    let front = a.drop_last();
    let back = b.drop_first();
    let core = "~"@ + number + "s"@;
    assert(message =~= (failure.message@ + front) + core + back);
    text::law_searching_finds_the_first_place(failure.message@ + front, core, back);
}

/// Taking handles counts one more user of each connected server and leaves the
/// other counts.
pub proof fn law_users_are_counted<H>(p: PoolView<H>, name: Seq<char>)
    requires
        has_room(p),
    ensures
        count_in(counted(p), name) == count_in(p.ref_counts, name) + if p.handles.dom().contains(
            name,
        ) {
            1int
        } else {
            0int
        },
        counted(p).dom().contains(name) <==> p.ref_counts.dom().contains(name)
            || p.handles.dom().contains(name),
{
}

proof fn lemma_times_given_back(counts: Map<Seq<char>, usize>, names: Seq<Seq<char>>, name: Seq<char>, k: int)
    requires
        0 <= k <= names.len(),
    ensures
        ({
            let times = names.take(k).filter(|n: Seq<char>| n == name).len();
            let left = count_in(counts, name) - times;
            &&& count_in(given_back(counts, names, k), name) == if left < 0 {
                0
            } else {
                left
            }
            &&& given_back(counts, names, k).dom().contains(name) == counts.dom().contains(name)
        }),
    decreases k,
{
    let p = |n: Seq<char>| n == name;
    if k > 0 {
        lemma_times_given_back(counts, names, name, k - 1);
        assert(names.take(k) =~= names.take(k - 1).push(names[k - 1]));
        sort::lemma_filter_last(names.take(k - 1), names[k - 1], p);
    } else {
        assert(names.take(0) =~= Seq::empty());
        sort::lemma_filter_empty(p);
    }
}

/// Giving handles back takes one user off for each time that a server is
/// named, never below none, and forgets no server.
pub proof fn law_users_are_taken_off(
    counts: Map<Seq<char>, usize>,
    names: Seq<Seq<char>>,
    name: Seq<char>,
)
    ensures
        ({
            let times = names.filter(|n: Seq<char>| n == name).len();
            let left = count_in(counts, name) - times;
            count_in(given_back(counts, names, names.len() as int), name) == if left < 0 {
                0
            } else {
                left
            }
        }),
        given_back(counts, names, names.len() as int).dom().contains(name)
            == counts.dom().contains(name),
{
    lemma_times_given_back(counts, names, name, names.len() as int);
    assert(names.take(names.len() as int) =~= names);
}

/// Whether a server is connected for all: it is switched on and shared.
pub open spec fn is_pooled() -> spec_fn(ServerEntry) -> bool {
    |s: ServerEntry| s.enabled && s.shared
}

proof fn lemma_targets_filter(config: Seq<ServerEntry>, k: int)
    requires
        0 <= k <= config.len(),
    ensures
        targets(config, k) == config.take(k).filter(is_pooled()).map_values(
            |s: ServerEntry| s.name@,
        ),
    decreases k,
{
    let f = |s: ServerEntry| s.name@;
    if k > 0 {
        lemma_targets_filter(config, k - 1);
        assert(config.take(k) =~= config.take(k - 1).push(config[k - 1]));
        sort::lemma_filter_last(config.take(k - 1), config[k - 1], is_pooled());
        assert(targets(config, k) =~= config.take(k).filter(is_pooled()).map_values(f));
    } else {
        assert(config.take(0) =~= Seq::empty());
        sort::lemma_filter_empty(is_pooled());
        assert(targets(config, k) =~= config.take(k).filter(is_pooled()).map_values(f));
    }
}

/// Every server that is switched on and shared is connected, in the order of
/// the settings, and no other.
pub proof fn law_every_shared_server_is_connected(config: Seq<ServerEntry>)
    ensures
        targets(config, config.len() as int) == config.filter(is_pooled()).map_values(
            |s: ServerEntry| s.name@,
        ),
{
    lemma_targets_filter(config, config.len() as int);
    assert(config.take(config.len() as int) =~= config);
}

/// The report on attempts counts the new connections, and lists every failure
/// with its server and its reason, in order.
pub proof fn law_attempts_are_counted_and_listed(
    results: Seq<(String, Result<bool, String>)>,
    one: (String, Result<bool, String>),
)
    ensures
        ({
            let n = results.len() as int;
            let all = results.push(one);
            &&& new_connections(all, n + 1) == new_connections(results, n) + (if one.1 is Ok
                && one.1->Ok_0 {
                1int
            } else {
                0int
            })
            &&& failures(all, n + 1) == match one.1 {
                Ok(_) => failures(results, n),
                Err(why) => failures(results, n).push((one.0@, why@)),
            }
            &&& new_connections(results, 0) == 0
            &&& failures(results, 0).len() == 0
        }),
{
    let n = results.len() as int;
    lemma_results_prefix(results, one, n);
    assert(results.push(one)[n] == one);
}

proof fn lemma_results_prefix(
    results: Seq<(String, Result<bool, String>)>,
    one: (String, Result<bool, String>),
    k: int,
)
    requires
        0 <= k <= results.len(),
    ensures
        new_connections(results.push(one), k) == new_connections(results, k),
        failures(results.push(one), k) == failures(results, k),
    decreases k,
{
    if k > 0 {
        lemma_results_prefix(results, one, k - 1);
        assert(results.push(one)[k - 1] == results[k - 1]);
    }
}

proof fn lemma_tools_filter(tools: Seq<(Seq<char>, Seq<char>)>, server: Seq<char>, k: int)
    requires
        0 <= k <= tools.len(),
    ensures
        tools_of(tools, server, k) == tools.take(k).filter(
            |t: (Seq<char>, Seq<char>)| t.0 == server,
        ).len(),
    decreases k,
{
    let p = |t: (Seq<char>, Seq<char>)| t.0 == server;
    if k > 0 {
        lemma_tools_filter(tools, server, k - 1);
        assert(tools.take(k) =~= tools.take(k - 1).push(tools[k - 1]));
        sort::lemma_filter_last(tools.take(k - 1), tools[k - 1], p);
    } else {
        assert(tools.take(0) =~= Seq::empty());
        sort::lemma_filter_empty(p);
    }
}

/// A server is counted with as many tools as are listed under its name, and
/// one without tools is not counted.
pub proof fn law_tools_are_counted_by_server(tools: Seq<(Seq<char>, Seq<char>)>, server: Seq<char>)
    requires
        tools.len() <= usize::MAX,
    ensures
        ({
            let count = tools.filter(|t: (Seq<char>, Seq<char>)| t.0 == server).len();
            &&& tool_tally(tools).dom().contains(server) <==> count > 0
            &&& count > 0 ==> tool_tally(tools)[server] == count
        }),
{
    let p = |t: (Seq<char>, Seq<char>)| t.0 == server;
    lemma_tools_filter(tools, server, tools.len() as int);
    assert(tools.take(tools.len() as int) =~= tools);
    tools.lemma_filter_len(p);
}

/// The tools of all servers are listed server by server, each under the name
/// of its server and in the order of the server.
pub proof fn law_tools_are_listed_by_server(
    offers: Seq<(String, Vec<String>)>,
    offer: (String, Vec<String>),
)
    ensures
        tool_rows(offers.push(offer), offers.len() as int + 1) == tool_rows(
            offers,
            offers.len() as int,
        ) + offer.1@.map_values(|tool: String| (offer.0@, tool@)),
        tool_rows(offers, 0).len() == 0,
{
    lemma_rows_prefix(offers, offer, offers.len() as int);
    assert(offers.push(offer)[offers.len() as int] == offer);
    let own = offer.1@.map_values(|tool: String| (offer.0@, tool@));
    assert(own =~= Seq::new(offer.1@.len(), |i: int| (offer.0@, offer.1@[i]@)));
}

proof fn lemma_rows_prefix(
    offers: Seq<(String, Vec<String>)>,
    offer: (String, Vec<String>),
    k: int,
)
    requires
        0 <= k <= offers.len(),
    ensures
        tool_rows(offers.push(offer), k) == tool_rows(offers, k),
    decreases k,
{
    if k > 0 {
        lemma_rows_prefix(offers, offer, k - 1);
        assert(offers.push(offer)[k - 1] == offers[k - 1]);
    }
}

} // verus!
