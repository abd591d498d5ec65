//! Login sessions kept in memory, the session cookie, and the request paths
//! and client addresses that need no login.
use vstd::prelude::*;
use crate::auth::{SESSION_COOKIE_NAME, SESSION_MAX_AGE_SECONDS, SESSION_TTL_NANOS};
use crate::numbers::{decimal, u64_to_chars};
use crate::text::{chars_eq, chars_of, push_char, push_chars, push_str, starts_with, starts_with_exec,
    string_from_range, trim_range};

verus! {

broadcast use vstd::string::group_string_axioms;

#[verifier::external_type_specification]
#[verifier::external_body]
pub struct ExRandomError(getrandom::Error);

/// Fills `buf` with random bytes from the operating system; wraps
/// `getrandom::fill`. Its documentation makes no promise about the contents,
/// and none on error; the buffer keeps its length.
#[verifier::external_body]
fn fill_random(buf: &mut Vec<u8>) -> (r: Result<(), getrandom::Error>)
    ensures
        final(buf)@.len() == old(buf)@.len(),
{
    getrandom::fill(buf.as_mut_slice())
}

/// The random source failed.
#[derive(Debug, Clone, PartialEq, Eq)]
pub struct RandomUnavailable;

/// `n` random bytes.
pub fn random_bytes(n: usize) -> (r: Result<Vec<u8>, RandomUnavailable>)
    ensures
        r matches Ok(v) ==> v@.len() == n,
{
    let mut buf: Vec<u8> = Vec::new();
    let mut i: usize = 0;
    while i < n
        invariant
            i <= n,
            buf@.len() == i,
        decreases n - i,
    {
        buf.push(0);
        i = i + 1;
    }
    match fill_random(&mut buf) {
        Ok(()) => Ok(buf),
        Err(_) => Err(RandomUnavailable),
    }
}

/// The lowercase hexadecimal digit of `d`.
pub open spec fn hex_digit(d: int) -> char {
    if d < 10 {
        (('0' as int) + d) as char
    } else {
        (('a' as int) + d - 10) as char
    }
}

/// Two lowercase hexadecimal digits per byte, high digit first.
pub open spec fn hex_text(bytes: Seq<u8>) -> Seq<char>
    decreases bytes.len(),
{
    if bytes.len() == 0 {
        Seq::empty()
    } else {
        hex_text(bytes.drop_last()) + seq![hex_digit((bytes.last() / 16) as int), hex_digit((bytes.last() % 16) as int)]
    }
}

fn hex_digit_exec(d: u8) -> (c: char)
    requires
        d < 16,
    ensures
        c == hex_digit(d as int),
{
    if d < 10 {
        (48u8 + d) as char
    } else {
        (87u8 + d) as char
    }
}

/// The bytes in lowercase hexadecimal.
pub fn hex_encode(bytes: &[u8]) -> (s: String)
    ensures
        s@ == hex_text(bytes@),
{
    let mut s = String::new();
    let mut i: usize = 0;
    while i < bytes.len()
        invariant
            i <= bytes.len(),
            s@ == hex_text(bytes@.take(i as int)),
        decreases bytes.len() - i,
    {
        let b = bytes[i];
        proof {
            assert(bytes@.take(i + 1).drop_last() =~= bytes@.take(i as int));
            assert(bytes@.take(i + 1).last() == b);
        }
        let ghost before = s@;
        push_char(&mut s, hex_digit_exec(b / 16));
        push_char(&mut s, hex_digit_exec(b % 16));
        assert(s@ =~= before + seq![hex_digit((b / 16) as int), hex_digit((b % 16) as int)]);
        i = i + 1;
    }
    assert(bytes@.take(bytes.len() as int) =~= bytes@);
    s
}

/// A new random session id: 32 random bytes in hexadecimal.
pub fn generate_session_id() -> (r: Result<String, RandomUnavailable>)
    ensures
        r matches Ok(id) ==> exists|b: Seq<u8>| b.len() == 32 && id@ == hex_text(b),
{
    let bytes = random_bytes(32)?;
    let id = hex_encode(bytes.as_slice());
    Ok(id)
}

/// A stored session.
#[derive(Debug, Clone, PartialEq, Eq)]
pub struct SessionRecord {
    pub username: String,
    /// Expiry, in nanoseconds since the Unix epoch.
    pub expires_at: u128,
}

pub struct SessionView {
    pub username: Seq<char>,
    pub expires_at: u128,
}

/// Sessions by id.
pub struct SessionStore {
    sessions: Vec<(String, SessionRecord)>,
}

pub open spec fn entry_views(v: Seq<(String, SessionRecord)>) -> Seq<(Seq<char>, SessionView)> {
    Seq::new(v.len(), |i: int| (v[i].0@, SessionView { username: v[i].1.username@, expires_at: v[i].1.expires_at }))
}

/// No id occurs twice.
pub open spec fn unique_ids(s: Seq<(Seq<char>, SessionView)>) -> bool {
    forall|i: int, j: int| 0 <= i < j < s.len() ==> (#[trigger] s[i]).0 != (#[trigger] s[j]).0
}

/// The session stored under `id`.
pub open spec fn lookup(s: Seq<(Seq<char>, SessionView)>, id: Seq<char>) -> Option<SessionView>
    decreases s.len(),
{
    if s.len() == 0 {
        None
    } else if s.last().0 == id {
        Some(s.last().1)
    } else {
        lookup(s.drop_last(), id)
    }
}

/// The sessions without `id`.
pub open spec fn without(s: Seq<(Seq<char>, SessionView)>, id: Seq<char>) -> Seq<(Seq<char>, SessionView)>
    decreases s.len(),
{
    if s.len() == 0 {
        s
    } else if s.last().0 == id {
        without(s.drop_last(), id)
    } else {
        without(s.drop_last(), id).push(s.last())
    }
}

/// The sessions with `id` stored as `r`: in place when it was there, added
/// last otherwise.
pub open spec fn with_session(s: Seq<(Seq<char>, SessionView)>, id: Seq<char>, r: SessionView) -> Seq<(Seq<char>, SessionView)>
    decreases s.len(),
{
    if s.len() == 0 {
        seq![(id, r)]
    } else if s.last().0 == id {
        s.drop_last().push((id, r))
    } else if lookup(s.drop_last(), id) is None {
        s.push((id, r))
    } else {
        with_session(s.drop_last(), id, r).push(s.last())
    }
}

/// The sessions that have not expired at `now`.
pub open spec fn unexpired(s: Seq<(Seq<char>, SessionView)>, now: u128) -> Seq<(Seq<char>, SessionView)>
    decreases s.len(),
{
    if s.len() == 0 {
        s
    } else if s.last().1.expires_at > now {
        unexpired(s.drop_last(), now).push(s.last())
    } else {
        unexpired(s.drop_last(), now)
    }
}

pub proof fn lemma_lookup_index(s: Seq<(Seq<char>, SessionView)>, i: int)
    requires
        unique_ids(s),
        0 <= i < s.len(),
    ensures
        lookup(s, s[i].0) == Some(s[i].1),
    decreases s.len(),
{
    if i < s.len() - 1 {
        assert(s[s.len() - 1].0 != s[i].0);
        let d = s.drop_last();
        assert(d[i] == s[i]);
        lemma_lookup_index(d, i);
    }
}

pub proof fn lemma_lookup_absent(s: Seq<(Seq<char>, SessionView)>, id: Seq<char>)
    requires
        forall|i: int| 0 <= i < s.len() ==> (#[trigger] s[i]).0 != id,
    ensures
        lookup(s, id) is None,
    decreases s.len(),
{
    if s.len() > 0 {
        assert(s[s.len() - 1].0 != id);
        let d = s.drop_last();
        assert forall|i: int| 0 <= i < d.len() implies (#[trigger] d[i]).0 != id by {
            assert(d[i] == s[i]);
        }
        lemma_lookup_absent(d, id);
    }
}

impl SessionStore {
    pub closed spec fn view(&self) -> Seq<(Seq<char>, SessionView)> {
        entry_views(self.sessions@)
    }

    pub closed spec fn wf(&self) -> bool {
        unique_ids(self.view())
    }

    /// A store without sessions.
    pub fn new() -> (s: Self)
        ensures
            s.wf(),
            s.view() == Seq::<(Seq<char>, SessionView)>::empty(),
    {
        let s = SessionStore { sessions: Vec::new() };
        assert(s.view() =~= Seq::<(Seq<char>, SessionView)>::empty());
        s
    }

    /// The index of the session `id`.
    fn find(&self, id: &str) -> (r: Option<usize>)
        requires
            self.wf(),
        ensures
            match r {
                Some(i) => i < self.view().len() && self.view()[i as int].0 == id@,
                None => forall|i: int| 0 <= i < self.view().len() ==> (#[trigger] self.view()[i]).0 != id@,
            },
    {
        let target = chars_of(id);
        let mut i: usize = 0;
        while i < self.sessions.len()
            invariant
                i <= self.sessions.len(),
                target@ == id@,
                forall|j: int| 0 <= j < i ==> (#[trigger] self.view()[j]).0 != id@,
            decreases self.sessions.len() - i,
        {
            if chars_eq(&chars_of(self.sessions[i].0.as_str()), &target) {
                return Some(i);
            }
            i = i + 1;
        }
        None
    }

    /// Stores a session for `username` under `session_id`, expiring one
    /// session lifetime after `now` (nanoseconds since the Unix epoch).
    pub fn insert_session(&mut self, session_id: String, username: String, now: u128)
        requires
            old(self).wf(),
            now + SESSION_TTL_NANOS <= u128::MAX,
        ensures
            final(self).wf(),
            final(self).view() == with_session(
                old(self).view(),
                session_id@,
                SessionView { username: username@, expires_at: (now + SESSION_TTL_NANOS) as u128 },
            ),
    {
        let record = SessionRecord { username, expires_at: now + SESSION_TTL_NANOS };
        let ghost rv = SessionView { username: record.username@, expires_at: record.expires_at };
        let ghost before = self.view();
        match self.find(session_id.as_str()) {
            Some(i) => {
                let ghost id = session_id@;
                self.sessions.set(i, (session_id, record));
                proof {
                    lemma_with_session_at(before, i as int, id, rv);
                    assert(self.view() =~= before.update(i as int, (id, rv)));
                }
            },
            None => {
                let ghost id = session_id@;
                self.sessions.push((session_id, record));
                proof {
                    lemma_lookup_absent(before, id);
                    assert(self.view() =~= before.push((id, rv)));
                    lemma_with_session_new(before, id, rv);
                }
            },
        }
    }

    /// Creates a session for `username` at `now` under a new random id and
    /// returns the id; when the random source fails, nothing changes.
    pub fn create_session(&mut self, username: String, now: u128) -> (r: Result<String, RandomUnavailable>)
        requires
            old(self).wf(),
            now + SESSION_TTL_NANOS <= u128::MAX,
        ensures
            final(self).wf(),
            match r {
                Ok(id) => {
                    &&& final(self).view() == with_session(
                        old(self).view(),
                        id@,
                        SessionView { username: username@, expires_at: (now + SESSION_TTL_NANOS) as u128 },
                    )
                    &&& exists|b: Seq<u8>| b.len() == 32 && id@ == hex_text(b)
                },
                Err(_) => final(self).view() == old(self).view(),
            },
    {
        let id = generate_session_id()?;
        self.insert_session(id.clone(), username, now);
        Ok(id)
    }

    /// The user of a session that has not expired at `now`. An expired
    /// session is removed; an empty id is never valid.
    pub fn validate(&mut self, session_id: &str, now: u128) -> (r: Option<String>)
        requires
            old(self).wf(),
        ensures
            final(self).wf(),
            session_id@.len() == 0 ==> r is None && final(self).view() == old(self).view(),
            session_id@.len() > 0 ==> match lookup(old(self).view(), session_id@) {
                None => r is None && final(self).view() == old(self).view(),
                Some(rec) => if rec.expires_at <= now {
                    r is None && final(self).view() == without(old(self).view(), session_id@)
                } else {
                    r matches Some(u) && u@ == rec.username && final(self).view() == old(self).view()
                },
            },
    {
        if session_id.is_empty() {
            return None;
        }
        let ghost before = self.view();
        match self.find(session_id) {
            None => {
                proof {
                    lemma_lookup_absent(before, session_id@);
                }
                None
            },
            Some(i) => {
                proof {
                    lemma_lookup_index(before, i as int);
                }
                if self.sessions[i].1.expires_at <= now {
                    self.sessions.remove(i);
                    proof {
                        lemma_without_at(before, i as int);
                        assert(self.view() =~= before.remove(i as int));
                    }
                    None
                } else {
                    Some(self.sessions[i].1.username.clone())
                }
            },
        }
    }

    /// Removes the session `id`; whether it existed. An empty id is never
    /// stored.
    pub fn remove(&mut self, session_id: &str) -> (removed: bool)
        requires
            old(self).wf(),
        ensures
            final(self).wf(),
            session_id@.len() == 0 ==> !removed && final(self).view() == old(self).view(),
            session_id@.len() > 0 ==> removed == lookup(old(self).view(), session_id@) is Some
                && final(self).view() == without(old(self).view(), session_id@),
    {
        if session_id.is_empty() {
            return false;
        }
        let ghost before = self.view();
        match self.find(session_id) {
            None => {
                proof {
                    lemma_lookup_absent(before, session_id@);
                    lemma_without_absent(before, session_id@);
                }
                false
            },
            Some(i) => {
                proof {
                    lemma_lookup_index(before, i as int);
                }
                self.sessions.remove(i);
                proof {
                    lemma_without_at(before, i as int);
                    assert(self.view() =~= before.remove(i as int));
                }
                true
            },
        }
    }

    /// Removes every session expired at `now` and returns how many went.
    pub fn clear_expired(&mut self, now: u128) -> (removed: usize)
        requires
            old(self).wf(),
        ensures
            final(self).wf(),
            final(self).view() == unexpired(old(self).view(), now),
            removed == old(self).view().len() - final(self).view().len(),
    {
        let ghost before = self.view();
        let mut kept: Vec<(String, SessionRecord)> = Vec::new();
        let mut i: usize = 0;
        proof {
            assert(entry_views(kept@) =~= unexpired(before.take(0), now));
        }
        while i < self.sessions.len()
            invariant
                i <= self.sessions.len(),
                before == entry_views(self.sessions@),
                unique_ids(before),
                entry_views(kept@) == unexpired(before.take(i as int), now),
                kept.len() <= i,
            decreases self.sessions.len() - i,
        {
            proof {
                assert(before.take(i + 1).drop_last() =~= before.take(i as int));
                assert(before.take(i + 1).last() == before[i as int]);
            }
            if self.sessions[i].1.expires_at > now {
                let ghost k0 = entry_views(kept@);
                let rec = SessionRecord {
                    username: self.sessions[i].1.username.clone(),
                    expires_at: self.sessions[i].1.expires_at,
                };
                kept.push((self.sessions[i].0.clone(), rec));
                assert(entry_views(kept@) =~= k0.push(before[i as int]));
            }
            i = i + 1;
        }
        proof {
            assert(before.take(before.len() as int) =~= before);
            lemma_unexpired_unique(before, now);
        }
        let removed = self.sessions.len() - kept.len();
        self.sessions = kept;
        removed
    }
}

/// A session read back after it is stored is what was stored, and storing
/// it leaves every other session as it was.
pub proof fn lemma_lookup_after_store(s: Seq<(Seq<char>, SessionView)>, id: Seq<char>, r: SessionView, other: Seq<char>)
    ensures
        lookup(with_session(s, id, r), id) == Some(r),
        other != id ==> lookup(with_session(s, id, r), other) == lookup(s, other),
    decreases s.len(),
{
    let w = with_session(s, id, r);
    if s.len() == 0 {
        assert(w == seq![(id, r)]);
        assert(w.drop_last() =~= Seq::<(Seq<char>, SessionView)>::empty());
        assert(lookup(w.drop_last(), other) is None);
    } else {
        let d = s.drop_last();
        if s.last().0 == id {
            assert(w == d.push((id, r)));
            assert(w.drop_last() =~= d);
            if other != id {
                assert(lookup(w, other) == lookup(d, other));
                assert(lookup(s, other) == lookup(d, other));
            }
        } else if lookup(d, id) is None {
            assert(w == s.push((id, r)));
            assert(w.drop_last() =~= s);
        } else {
            lemma_lookup_after_store(d, id, r, other);
            let wd = with_session(d, id, r);
            assert(w == wd.push(s.last()));
            assert(w.drop_last() =~= wd);
        }
    }
}

/// A removed session is gone, and removing it leaves every other session
/// as it was.
pub proof fn lemma_lookup_after_remove(s: Seq<(Seq<char>, SessionView)>, id: Seq<char>, other: Seq<char>)
    ensures
        lookup(without(s, id), id) is None,
        other != id ==> lookup(without(s, id), other) == lookup(s, other),
    decreases s.len(),
{
    if s.len() > 0 {
        let d = s.drop_last();
        lemma_lookup_after_remove(d, id, other);
        if s.last().0 != id {
            let w = without(d, id);
            assert(w.push(s.last()).drop_last() =~= w);
        }
    }
}

/// After clearing expired sessions at `now`, a session is found exactly
/// when it was stored and expires after `now`.
pub proof fn lemma_lookup_after_clear(s: Seq<(Seq<char>, SessionView)>, now: u128, id: Seq<char>)
    requires
        unique_ids(s),
    ensures
        lookup(unexpired(s, now), id) == match lookup(s, id) {
            Some(v) => if v.expires_at > now { Some(v) } else { None },
            None => None,
        },
    decreases s.len(),
{
    if s.len() > 0 {
        let d = s.drop_last();
        assert(unique_ids(d)) by {
            assert forall|i: int, j: int| 0 <= i < j < d.len() implies (#[trigger] d[i]).0 != (#[trigger] d[j]).0 by {
                assert(d[i] == s[i] && d[j] == s[j]);
            }
        }
        lemma_lookup_after_clear(d, now, id);
        let u = unexpired(d, now);
        if s.last().1.expires_at > now {
            assert(u.push(s.last()).drop_last() =~= u);
        }
        if s.last().0 == id {
            assert forall|i: int| 0 <= i < d.len() implies (#[trigger] d[i]).0 != id by {
                assert(d[i] == s[i]);
                assert(s[i].0 != s[s.len() - 1].0);
            }
            lemma_lookup_absent(d, id);
        }
    }
}

pub proof fn lemma_unexpired_unique(s: Seq<(Seq<char>, SessionView)>, now: u128)
    requires
        unique_ids(s),
    ensures
        unique_ids(unexpired(s, now)),
        forall|i: int| 0 <= i < unexpired(s, now).len() ==> s.contains(#[trigger] unexpired(s, now)[i]),
        unexpired(s, now).len() <= s.len(),
    decreases s.len(),
{
    if s.len() > 0 {
        let d = s.drop_last();
        assert(unique_ids(d)) by {
            assert forall|i: int, j: int| 0 <= i < j < d.len() implies (#[trigger] d[i]).0 != (#[trigger] d[j]).0 by {
                assert(d[i] == s[i] && d[j] == s[j]);
            }
        }
        lemma_unexpired_unique(d, now);
        let u = unexpired(d, now);
        assert forall|i: int| 0 <= i < u.len() implies s.contains(#[trigger] u[i]) by {
            let k = choose|k: int| 0 <= k < d.len() && d[k] == u[i];
            assert(s[k] == d[k]);
        }
        if s.last().1.expires_at > now {
            let v = u.push(s.last());
            assert forall|i: int, j: int| 0 <= i < j < v.len() implies (#[trigger] v[i]).0 != (#[trigger] v[j]).0 by {
                if j == v.len() - 1 {
                    assert(v[i] == u[i]);
                    assert(d.contains(u[i]));
                    let k = choose|k: int| 0 <= k < d.len() && d[k] == u[i];
                    assert(s[k] == d[k]);
                    assert(s[s.len() - 1].0 != s[k].0);
                }
            }
            assert forall|i: int| 0 <= i < v.len() implies s.contains(#[trigger] v[i]) by {
                if i == v.len() - 1 {
                    assert(s[s.len() - 1] == v[i]);
                } else {
                    assert(v[i] == u[i]);
                }
            }
        }
    }
}

pub proof fn lemma_without_at(s: Seq<(Seq<char>, SessionView)>, i: int)
    requires
        unique_ids(s),
        0 <= i < s.len(),
    ensures
        without(s, s[i].0) == s.remove(i),
        unique_ids(s.remove(i)),
    decreases s.len(),
{
    let id = s[i].0;
    let d = s.drop_last();
    assert(unique_ids(d)) by {
        assert forall|a: int, b: int| 0 <= a < b < d.len() implies (#[trigger] d[a]).0 != (#[trigger] d[b]).0 by {
            assert(d[a] == s[a] && d[b] == s[b]);
        }
    }
    if i == s.len() - 1 {
        assert forall|k: int| 0 <= k < d.len() implies (#[trigger] d[k]).0 != id by {
            assert(d[k] == s[k]);
        }
        lemma_without_absent(d, id);
        assert(s.remove(i) =~= d);
    } else {
        assert(d[i] == s[i]);
        lemma_without_at(d, i);
        assert(s.last().0 != id) by {
            assert(s[s.len() - 1].0 != s[i].0);
        }
        assert(s.remove(i) =~= d.remove(i).push(s.last()));
    }
    assert forall|a: int, b: int| 0 <= a < b < s.remove(i).len() implies (#[trigger] s.remove(i)[a]).0 != (#[trigger] s.remove(i)[b]).0 by {
        let r = s.remove(i);
        let a2 = if a < i { a } else { a + 1 };
        let b2 = if b < i { b } else { b + 1 };
        assert(r[a] == s[a2] && r[b] == s[b2]);
    }
}

pub proof fn lemma_without_absent(s: Seq<(Seq<char>, SessionView)>, id: Seq<char>)
    requires
        forall|i: int| 0 <= i < s.len() ==> (#[trigger] s[i]).0 != id,
    ensures
        without(s, id) == s,
    decreases s.len(),
{
    if s.len() > 0 {
        let d = s.drop_last();
        assert forall|i: int| 0 <= i < d.len() implies (#[trigger] d[i]).0 != id by {
            assert(d[i] == s[i]);
        }
        lemma_without_absent(d, id);
        assert(s[s.len() - 1].0 != id);
        assert(d.push(s.last()) =~= s);
    }
}

pub proof fn lemma_with_session_at(s: Seq<(Seq<char>, SessionView)>, i: int, id: Seq<char>, r: SessionView)
    requires
        unique_ids(s),
        0 <= i < s.len(),
        s[i].0 == id,
    ensures
        with_session(s, id, r) == s.update(i, (id, r)),
        unique_ids(s.update(i, (id, r))),
    decreases s.len(),
{
    let d = s.drop_last();
    assert(unique_ids(d)) by {
        assert forall|a: int, b: int| 0 <= a < b < d.len() implies (#[trigger] d[a]).0 != (#[trigger] d[b]).0 by {
            assert(d[a] == s[a] && d[b] == s[b]);
        }
    }
    if i == s.len() - 1 {
        assert(s.update(i, (id, r)) =~= d.push((id, r)));
    } else {
        assert(d[i] == s[i]);
        assert(s.last().0 != id) by {
            assert(s[s.len() - 1].0 != s[i].0);
        }
        lemma_lookup_index(d, i);
        lemma_with_session_at(d, i, id, r);
        assert(s.update(i, (id, r)) =~= d.update(i, (id, r)).push(s.last()));
    }
    let u = s.update(i, (id, r));
    assert forall|a: int, b: int| 0 <= a < b < u.len() implies (#[trigger] u[a]).0 != (#[trigger] u[b]).0 by {
        assert(u[a].0 == s[a].0 && u[b].0 == s[b].0);
    }
}

pub proof fn lemma_with_session_new(s: Seq<(Seq<char>, SessionView)>, id: Seq<char>, r: SessionView)
    requires
        unique_ids(s),
        lookup(s, id) is None,
        forall|i: int| 0 <= i < s.len() ==> (#[trigger] s[i]).0 != id,
    ensures
        with_session(s, id, r) == s.push((id, r)),
        unique_ids(s.push((id, r))),
{
    if s.len() > 0 {
        assert(s[s.len() - 1].0 != id);
        let d = s.drop_last();
        assert forall|i: int| 0 <= i < d.len() implies (#[trigger] d[i]).0 != id by {
            assert(d[i] == s[i]);
        }
        lemma_lookup_absent(d, id);
    }
    let u = s.push((id, r));
    assert forall|a: int, b: int| 0 <= a < b < u.len() implies (#[trigger] u[a]).0 != (#[trigger] u[b]).0 by {
        if b == s.len() {
            assert(u[a] == s[a]);
        } else {
            assert(u[a] == s[a] && u[b] == s[b]);
        }
    }
}

/// The `Set-Cookie` value of a new session.
pub open spec fn session_cookie_text(id: Seq<char>) -> Seq<char> {
    "token="@ + id + "; Max-Age="@ + decimal(SESSION_MAX_AGE_SECONDS as nat) + "; Path=/; HttpOnly; SameSite=Lax"@
}

/// Name of the session cookie.
pub fn session_cookie_name() -> (n: &'static str)
    ensures
        n@ == "token"@,
{
    SESSION_COOKIE_NAME
}

/// The `Set-Cookie` value that stores a new session id for seven days.
pub fn session_cookie_value(session_id: &str) -> (c: String)
    ensures
        c@ == session_cookie_text(session_id@),
{
    let mut c = "token=".to_string();
    push_str(&mut c, session_id);
    push_str(&mut c, "; Max-Age=");
    push_chars(&mut c, &u64_to_chars(SESSION_MAX_AGE_SECONDS));
    push_str(&mut c, "; Path=/; HttpOnly; SameSite=Lax");
    c
}

/// The `Set-Cookie` value that clears the session cookie.
pub fn clear_session_cookie_value() -> (c: String)
    ensures
        c@ == "token=; Max-Age=0; Path=/; HttpOnly; SameSite=Lax"@,
{
    "token=; Max-Age=0; Path=/; HttpOnly; SameSite=Lax".to_string()
}

/// The API paths that need no login.
pub open spec fn whitelisted_api_path(path: Seq<char>) -> bool {
    ||| path == "/api/login"@
    ||| path == "/api/logout"@
    ||| path == "/ws"@
    ||| path == "/api/bootstrap"@
    ||| path == "/api/init"@
    ||| path == "/api/install/steamcmd"@
}

/// Whether a request path bypasses the login check: everything outside
/// `/api`, and the listed paths.
pub fn is_whitelisted_path(path: &str) -> (allowed: bool)
    ensures
        allowed == (!starts_with(path@, "/api"@) || whitelisted_api_path(path@)),
{
    let p = chars_of(path);
    if !starts_with_exec(&p, &chars_of("/api")) {
        return true;
    }
    chars_eq(&p, &chars_of("/api/login")) || chars_eq(&p, &chars_of("/api/logout")) || chars_eq(
        &p,
        &chars_of("/ws"),
    ) || chars_eq(&p, &chars_of("/api/bootstrap")) || chars_eq(&p, &chars_of("/api/init"))
        || chars_eq(&p, &chars_of("/api/install/steamcmd"))
}

/// An IP address as its number.
#[derive(Debug, Clone, Copy, PartialEq, Eq, Structural)]
pub enum IpValue {
    V4(u32),
    V6(u128),
}

/// The mask of the first `prefix` bits of an IPv4 address.
pub open spec fn mask_v4(prefix: u8) -> u32 {
    if prefix == 0 {
        0
    } else {
        (0xffff_ffffu32 << ((32 - prefix) as u32)) as u32
    }
}

/// The mask of the first `prefix` bits of an IPv6 address.
pub open spec fn mask_v6(prefix: u8) -> u128 {
    if prefix == 0 {
        0
    } else {
        (0xffff_ffff_ffff_ffff_ffff_ffff_ffff_ffffu128 << ((128 - prefix) as u128)) as u128
    }
}

pub fn prefix_mask_v4(prefix: u8) -> (m: u32)
    requires
        prefix <= 32,
    ensures
        m == mask_v4(prefix),
{
    if prefix == 0 {
        0
    } else {
        0xffff_ffffu32 << ((32 - prefix) as u32)
    }
}

pub fn prefix_mask_v6(prefix: u8) -> (m: u128)
    requires
        prefix <= 128,
    ensures
        m == mask_v6(prefix),
{
    if prefix == 0 {
        0
    } else {
        0xffff_ffff_ffff_ffff_ffff_ffff_ffff_ffffu128 << ((128 - prefix) as u128)
    }
}

/// Whether `remote` lies in the network `network/prefix`: `None` when the
/// prefix is too long for the address family, `false` across families.
pub open spec fn cidr_contains_spec(network: IpValue, prefix: u8, remote: IpValue) -> Option<bool> {
    match (network, remote) {
        (IpValue::V4(n), IpValue::V4(r)) => if prefix <= 32 {
            Some(n & mask_v4(prefix) == r & mask_v4(prefix))
        } else {
            None
        },
        (IpValue::V6(n), IpValue::V6(r)) => if prefix <= 128 {
            Some(n & mask_v6(prefix) == r & mask_v6(prefix))
        } else {
            None
        },
        _ => Some(false),
    }
}

pub fn cidr_contains(network: IpValue, prefix: u8, remote: IpValue) -> (r: Option<bool>)
    ensures
        r == cidr_contains_spec(network, prefix, remote),
{
    match (network, remote) {
        (IpValue::V4(n), IpValue::V4(r)) => if prefix <= 32 {
            let m = prefix_mask_v4(prefix);
            Some(n & m == r & m)
        } else {
            None
        },
        (IpValue::V6(n), IpValue::V6(r)) => if prefix <= 128 {
            let m = prefix_mask_v6(prefix);
            Some(n & m == r & m)
        } else {
            None
        },
        _ => Some(false),
    }
}

/// One entry of the admin address list, as parsed: a network with a prefix
/// length (either may have failed to parse), or one address (which may have
/// failed to parse).
#[derive(Debug, Clone, Copy, PartialEq, Eq)]
pub enum WhiteEntry {
    Cidr { network: Option<IpValue>, prefix: Option<u8> },
    Exact(Option<IpValue>),
}

/// Whether an entry admits `remote`; entries that failed to parse admit nothing.
pub open spec fn entry_admits(e: WhiteEntry, remote: IpValue) -> bool {
    match e {
        WhiteEntry::Cidr { network: Some(n), prefix: Some(p) } => cidr_contains_spec(n, p, remote) == Some(true),
        WhiteEntry::Cidr { .. } => false,
        WhiteEntry::Exact(Some(a)) => a == remote,
        WhiteEntry::Exact(None) => false,
    }
}

/// Whether some entry admits the client address; an address that failed to
/// parse is never admitted.
pub fn is_white_ip_parsed(remote: Option<IpValue>, entries: &Vec<WhiteEntry>) -> (b: bool)
    ensures
        b == (remote matches Some(r) && exists|i: int| 0 <= i < entries.len() && entry_admits(#[trigger] entries@[i], r)),
{
    let r = match remote {
        Some(r) => r,
        None => return false,
    };
    let mut i: usize = 0;
    while i < entries.len()
        invariant
            i <= entries.len(),
            remote == Some(r),
            forall|j: int| 0 <= j < i ==> !entry_admits(#[trigger] entries@[j], r),
        decreases entries.len() - i,
    {
        let admitted = match entries[i] {
            WhiteEntry::Cidr { network: Some(n), prefix: Some(p) } => match cidr_contains(n, p, r) {
                Some(b) => b,
                None => false,
            },
            WhiteEntry::Cidr { .. } => false,
            WhiteEntry::Exact(Some(a)) => a == r,
            WhiteEntry::Exact(None) => false,
        };
        if admitted {
            assert(entry_admits(entries@[i as int], r));
            assert(remote == Some(r));
            assert(exists|j: int| 0 <= j < entries.len() && entry_admits(#[trigger] entries@[j], r));
            return true;
        }
        i = i + 1;
    }
    false
}

/// The non-empty trimmed pieces of the comma-separated admin address list.
pub fn white_ip_entries(config: &str) -> (entries: Vec<String>)
    ensures
        crate::process::string_views(entries@) == crate::player_lists::nonblank_trimmed(
            crate::text::split_char(config@, ','),
        ),
{
    let v = chars_of(config);
    let rs = crate::text::split_ranges(&v, 0, v.len(), ',');
    proof {
        assert(v@.subrange(0, v.len() as int) =~= v@);
    }
    let ghost ps = crate::text::split_char(v@, ',');
    let mut out: Vec<String> = Vec::new();
    let mut k: usize = 0;
    while k < rs.len()
        invariant
            v@ == config@,
            ps == crate::text::split_char(v@, ','),
            crate::text::ranges_within(rs@, 0, v.len() as int),
            crate::text::ranges_view(v@, rs@) == ps,
            k <= rs.len(),
            crate::process::string_views(out@) == crate::player_lists::nonblank_trimmed(ps.take(k as int)),
        decreases rs.len() - k,
    {
        let (lo, hi) = rs[k];
        assert(0 <= rs@[k as int].0 <= rs@[k as int].1 <= v.len());
        proof {
            assert(ps.take(k + 1).drop_last() =~= ps.take(k as int));
            assert(ps.take(k + 1).last() == v@.subrange(lo as int, hi as int));
        }
        let (tlo, thi) = trim_range(&v, lo, hi);
        if tlo < thi {
            let ghost before = out@;
            out.push(string_from_range(&v, tlo, thi));
            assert(crate::process::string_views(out@) =~= crate::process::string_views(before).push(
                v@.subrange(tlo as int, thi as int),
            ));
        }
        k = k + 1;
    }
    assert(ps.take(rs.len() as int) =~= ps);
    out
}

/// Hexadecimal text has two digits per byte.
pub proof fn lemma_hex_text_len(b: Seq<u8>)
    ensures
        hex_text(b).len() == 2 * b.len(),
    decreases b.len(),
{
    if b.len() > 0 {
        lemma_hex_text_len(b.drop_last());
    }
}

/// A session created at `now` under an id made of 32 random bytes is found
/// again by that id, which is 64 characters long, for the user it was made
/// for, while a check time `t` is before the session's expiry; from the
/// expiry on it is expired. Ids never stored are not found.
pub proof fn lemma_validate_after_create(
    s: Seq<(Seq<char>, SessionView)>,
    b: Seq<u8>,
    username: Seq<char>,
    now: u128,
    t: u128,
    other: Seq<char>,
)
    requires
        b.len() == 32,
        now + SESSION_TTL_NANOS <= u128::MAX,
    ensures
        ({
            let id = hex_text(b);
            let rec = SessionView { username, expires_at: (now + SESSION_TTL_NANOS) as u128 };
            let after = with_session(s, id, rec);
            &&& id.len() == 64
            &&& lookup(after, id) == Some(rec)
            &&& (t < now + SESSION_TTL_NANOS <==> !(rec.expires_at <= t))
            &&& (other != id && lookup(s, other) is None ==> lookup(after, other) is None)
        }),
{
    lemma_hex_text_len(b);
    let id = hex_text(b);
    let rec = SessionView { username, expires_at: (now + SESSION_TTL_NANOS) as u128 };
    lemma_lookup_after_store(s, id, rec, other);
}

} // verus!
