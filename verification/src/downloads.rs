use vstd::prelude::*;

use crate::track_cache::{is_valid_audio, looks_like_audio, MIN_AUDIO_SIZE};

verus! {

/// A track that the player asks to have downloaded ahead of playback.
#[derive(Debug)]
pub struct PreloadEntry {
    pub urn: String,
    pub url: String,
    pub session_id: Option<String>,
}

/// How a download answers an HTTP status.
#[derive(Clone, Copy, Debug, PartialEq, Eq)]
pub enum StatusClass {
    /// 2xx: the body is the track.
    Success,
    /// 429 or 5xx: worth another attempt.
    Retry,
    /// Any other status: the download fails at once.
    Fail,
}

/// The class of an HTTP status code.
pub open spec fn status_class(status: u16) -> StatusClass {
    if 200 <= status <= 299 {
        StatusClass::Success
    } else if status == 429 || status >= 500 {
        StatusClass::Retry
    } else {
        StatusClass::Fail
    }
}

/// Classifies the status of a download response.
pub fn classify_status(status: u16) -> (c: StatusClass)
    ensures
        c == status_class(status),
{
    if 200 <= status && status <= 299 {
        StatusClass::Success
    } else if status == 429 || status >= 500 {
        StatusClass::Retry
    } else {
        StatusClass::Fail
    }
}

/// The pause before the attempt after a failed attempt `attempt` (counted
/// from 0), in milliseconds; `None` after the last one.
pub open spec fn retry_delay(attempt: int) -> Option<u64> {
    if attempt == 0 {
        Some(300)
    } else if attempt == 1 {
        Some(800)
    } else if attempt == 2 {
        Some(2000)
    } else {
        None
    }
}

/// How many attempts a download makes at most.
pub const MAX_ATTEMPTS: usize = 4;

/// The message of a request that could not be sent.
pub open spec fn request_error(e: Seq<char>) -> Seq<char> {
    "request: "@ + e
}

/// The message of a body that could not be read.
pub open spec fn body_error(e: Seq<char>) -> Seq<char> {
    "body read: "@ + e
}

/// The message of a status worth retrying, with the URL that answered it.
pub open spec fn status_error_from(status: Seq<char>, url: Seq<char>) -> Seq<char> {
    "HTTP "@ + status + " from "@ + url
}

/// The message of a status that ends the download.
pub open spec fn status_error(status: Seq<char>) -> Seq<char> {
    "HTTP "@ + status
}

/// The message of a cache file that could not be written.
pub open spec fn write_error(e: Seq<char>) -> Seq<char> {
    "Cache write failed: "@ + e
}

/// What the download of a track asks its caller to do next.
#[derive(Debug, PartialEq, Eq)]
pub enum FetchAction {
    /// Wait this many milliseconds, then send the request again.
    Retry(u64),
    /// Read the body of the response.
    ReadBody,
    /// Write the body to the track's cache file.
    WriteFile,
    /// The download is over: the cache file was written, or the message.
    Finished(Result<(), String>),
}

/// The step after a failed attempt number `attempt` whose failure reads
/// `msg`: another attempt after a pause, or, after the last one, failure
/// with that message.
pub open spec fn after_failure(attempt: int, msg: Seq<char>, action: FetchAction) -> bool {
    match retry_delay(attempt) {
        Some(d) => action == FetchAction::Retry(d),
        None => action matches FetchAction::Finished(Err(m)) && m@ == msg,
    }
}

/// The attempts to download a track into the cache: a request, then its
/// body, then the write of the cache file. A failed request or body read,
/// and a status of 429 or 5xx, are retried after a pause, three times at
/// most; any other status fails at once, and so do a body that is not
/// audio and a failed write.
pub struct Fetch {
    attempt: usize,
    last_err: String,
}

impl Fetch {
    /// The number of the attempt under way, counted from 0.
    pub closed spec fn attempt(&self) -> int {
        self.attempt as int
    }

    /// The message of the last failure worth retrying.
    pub closed spec fn last_error(&self) -> Seq<char> {
        self.last_err@
    }

    /// At most the last attempt is under way.
    pub closed spec fn wf(&self) -> bool {
        self.attempt < MAX_ATTEMPTS
    }

    /// A download before its first request.
    pub fn start() -> (f: Self)
        ensures
            f.wf(),
            f.attempt() == 0,
            f.last_error() == Seq::<char>::empty(),
    {
        Fetch { attempt: 0, last_err: String::new() }
    }

    fn failed(&mut self, msg: String) -> (action: FetchAction)
        requires
            old(self).wf(),
        ensures
            final(self).wf(),
            final(self).last_error() == msg@,
            after_failure(old(self).attempt(), msg@, action),
            final(self).attempt() == if retry_delay(old(self).attempt()) is Some {
                old(self).attempt() + 1
            } else {
                old(self).attempt()
            },
    {
        let delay: u64 = if self.attempt == 0 {
            300
        } else if self.attempt == 1 {
            800
        } else if self.attempt == 2 {
            2000
        } else {
            self.last_err = msg.clone();
            return FetchAction::Finished(Err(msg));
        };
        self.last_err = msg;
        self.attempt = self.attempt + 1;
        FetchAction::Retry(delay)
    }

    /// The request could not be sent; `err` is the reason.
    pub fn request_failed(&mut self, err: &str) -> (action: FetchAction)
        requires
            old(self).wf(),
        ensures
            final(self).wf(),
            final(self).last_error() == request_error(err@),
            after_failure(old(self).attempt(), request_error(err@), action),
            final(self).attempt() == if retry_delay(old(self).attempt()) is Some {
                old(self).attempt() + 1
            } else {
                old(self).attempt()
            },
    {
        let mut msg = String::from_str("request: ");
        msg.append(err);
        self.failed(msg)
    }

    /// The server answered with `status`, which reads `status_text`, from
    /// `final_url` (after redirects).
    pub fn response(&mut self, status: u16, status_text: &str, final_url: &str) -> (action:
        FetchAction)
        requires
            old(self).wf(),
        ensures
            final(self).wf(),
            match status_class(status) {
                StatusClass::Success => action == FetchAction::ReadBody && *final(self) == *old(
                    self,
                ),
                StatusClass::Retry => {
                    &&& final(self).last_error() == status_error_from(status_text@, final_url@)
                    &&& after_failure(
                        old(self).attempt(),
                        status_error_from(status_text@, final_url@),
                        action,
                    )
                    &&& final(self).attempt() == if retry_delay(old(self).attempt()) is Some {
                        old(self).attempt() + 1
                    } else {
                        old(self).attempt()
                    }
                },
                StatusClass::Fail => action matches FetchAction::Finished(Err(m)) && m@
                    == status_error(status_text@) && *final(self) == *old(self),
            },
    {
        match classify_status(status) {
            StatusClass::Success => FetchAction::ReadBody,
            StatusClass::Retry => {
                let mut msg = String::from_str("HTTP ");
                msg.append(status_text);
                msg.append(" from ");
                msg.append(final_url);
                self.failed(msg)
            },
            StatusClass::Fail => {
                let mut msg = String::from_str("HTTP ");
                msg.append(status_text);
                FetchAction::Finished(Err(msg))
            },
        }
    }

    /// The body of a successful response could not be read; `err` is the
    /// reason.
    pub fn body_failed(&mut self, err: &str) -> (action: FetchAction)
        requires
            old(self).wf(),
        ensures
            final(self).wf(),
            final(self).last_error() == body_error(err@),
            after_failure(old(self).attempt(), body_error(err@), action),
            final(self).attempt() == if retry_delay(old(self).attempt()) is Some {
                old(self).attempt() + 1
            } else {
                old(self).attempt()
            },
    {
        let mut msg = String::from_str("body read: ");
        msg.append(err);
        self.failed(msg)
    }

    /// The body was read: it is written to the cache only where it looks
    /// like audio.
    pub fn body(&self, bytes: &[u8]) -> (action: FetchAction)
        ensures
            if looks_like_audio(bytes@) {
                action == FetchAction::WriteFile
            } else {
                action matches FetchAction::Finished(Err(m)) && m@ == "Invalid audio data"@
            },
    {
        if is_valid_audio(bytes) {
            FetchAction::WriteFile
        } else {
            FetchAction::Finished(Err(String::from_str("Invalid audio data")))
        }
    }

    /// The write of the cache file finished, or failed with a message.
    pub fn written(&self, result: Result<(), String>) -> (action: FetchAction)
        ensures
            match result {
                Ok(()) => action == FetchAction::Finished(Ok(())),
                Err(e) => action matches FetchAction::Finished(Err(m)) && m@ == write_error(e@),
            },
    {
        match result {
            Ok(()) => FetchAction::Finished(Ok(())),
            Err(e) => {
                let mut msg = String::from_str("Cache write failed: ");
                msg.append(e.as_str());
                FetchAction::Finished(Err(msg))
            },
        }
    }
}

/// A download makes at most four attempts: it pauses 300, 800 and 2000 ms
/// after the first three failures worth retrying, and gives up after the
/// fourth.
pub proof fn lemma_retry_budget()
    ensures
        retry_delay(0) == Some(300u64),
        retry_delay(1) == Some(800u64),
        retry_delay(2) == Some(2000u64),
        retry_delay(MAX_ATTEMPTS - 1) is None,
        forall|a: int| 0 <= a < MAX_ATTEMPTS - 1 ==> #[trigger] retry_delay(a) is Some,
{
}

/// Only 2xx answers are successes; 429 and every status from 500 on are
/// worth another attempt; every other status fails at once.
pub proof fn lemma_status_classes(s: u16)
    ensures
        200 <= s < 300 <==> status_class(s) == StatusClass::Success,
        (s == 429 || s >= 500) <==> status_class(s) == StatusClass::Retry,
        (s < 200 || (300 <= s < 500 && s != 429)) <==> status_class(s) == StatusClass::Fail,
        status_class(502) == StatusClass::Retry,
        status_class(504) == StatusClass::Retry,
        status_class(404) == StatusClass::Fail,
{
}

/// A preloaded body is written to the cache only when it is at least this
/// long.
pub fn preload_body_ok(len: usize) -> (ok: bool)
    ensures
        ok == (len >= MIN_AUDIO_SIZE),
{
    len as u64 >= MIN_AUDIO_SIZE
}

/// The positions of `false` in `cached`, in order.
pub open spec fn uncached_positions(cached: Seq<bool>) -> Seq<int>
    decreases cached.len(),
{
    if cached.len() == 0 {
        Seq::empty()
    } else if !cached.last() {
        uncached_positions(cached.drop_last()).push(cached.len() - 1)
    } else {
        uncached_positions(cached.drop_last())
    }
}

/// The positions picked for preloading are exactly the entries whose track
/// is not cached, each once, in the order given.
pub proof fn lemma_uncached_positions(cached: Seq<bool>)
    ensures
        forall|k: int|
            0 <= k < uncached_positions(cached).len() ==> 0 <= #[trigger] uncached_positions(cached)[k]
                < cached.len() && !cached[uncached_positions(cached)[k]],
        forall|i: int|
            0 <= i < cached.len() && !cached[i] ==> exists|k: int|
                0 <= k < uncached_positions(cached).len() && #[trigger] uncached_positions(cached)[k]
                    == i,
        forall|k1: int, k2: int|
            0 <= k1 < k2 < uncached_positions(cached).len() ==> #[trigger] uncached_positions(
                cached,
            )[k1] < #[trigger] uncached_positions(cached)[k2],
    decreases cached.len(),
{
    if cached.len() > 0 {
        let before = cached.drop_last();
        lemma_uncached_positions(before);
        let r0 = uncached_positions(before);
        let r = uncached_positions(cached);
        let n = cached.len() - 1;
        assert forall|k: int| 0 <= k < r.len() implies 0 <= #[trigger] r[k] < cached.len() && !cached[r[k]] by {
            if k < r0.len() {
                assert(r[k] == r0[k]);
                assert(cached[r0[k]] == before[r0[k]]);
            }
        }
        assert forall|i: int| 0 <= i < cached.len() && !cached[i] implies exists|k: int|
            0 <= k < r.len() && #[trigger] r[k] == i by {
            if i < n {
                assert(before[i] == cached[i]);
                let k = choose|k: int| 0 <= k < r0.len() && #[trigger] r0[k] == i;
                assert(r[k] == r0[k]);
            } else {
                assert(r[r.len() - 1] == n);
            }
        }
        assert forall|k1: int, k2: int| 0 <= k1 < k2 < r.len() implies #[trigger] r[k1] < #[trigger] r[k2] by {
            if k2 < r0.len() {
                assert(r[k1] == r0[k1] && r[k2] == r0[k2]);
            } else {
                assert(r[k1] == r0[k1]);
                assert(0 <= r0[k1] < before.len());
            }
        }
    }
}

/// The preload entries to download: those whose track is not cached yet,
/// in the order given. `cached[i]` tells whether the track of `entries[i]`
/// is in the cache.
pub fn preload_targets(entries: &Vec<PreloadEntry>, cached: &Vec<bool>) -> (idx: Vec<usize>)
    requires
        cached@.len() == entries@.len(),
    ensures
        idx@.map_values(|i: usize| i as int) == uncached_positions(cached@),
{
    let mut idx: Vec<usize> = Vec::new();
    let mut i: usize = 0;
    while i < cached.len()
        invariant
            i <= cached@.len(),
            idx@.map_values(|i: usize| i as int) == uncached_positions(cached@.take(i as int)),
        decreases cached@.len() - i,
    {
        proof {
            assert(cached@.take(i + 1).drop_last() =~= cached@.take(i as int));
        }
        if !cached[i] {
            idx.push(i);
            proof {
                assert(idx@.map_values(|i: usize| i as int) =~= idx@.drop_last().map_values(
                    |i: usize| i as int,
                ).push(i as int));
            }
        }
        i = i + 1;
    }
    proof {
        assert(cached@.take(i as int) =~= cached@);
    }
    idx
}

/// What a request that joined another's download answers, given what that
/// download left in the shared slot.
pub fn joined_outcome(slot: Option<Result<String, String>>) -> (res: Result<String, String>)
    ensures
        match slot {
            Some(r) => res == r,
            None => res matches Err(e) && e@ == "download completed without result"@,
        },
{
    match slot {
        Some(r) => r,
        None => Err(String::from_str("download completed without result")),
    }
}

/// The downloads under way, each keyed by its track, with what those who
/// wait for it need (`T`). No track occurs twice.
pub struct DownloadRegistry<T> {
    entries: Vec<(String, T)>,
}

/// The keys of `entries`, as character sequences.
pub open spec fn registry_keys<T>(entries: Seq<(String, T)>) -> Seq<Seq<char>> {
    entries.map_values(|e: (String, T)| e.0@)
}

impl<T> DownloadRegistry<T> {
    /// The downloads under way, by track.
    pub closed spec fn view_map(&self) -> Map<Seq<char>, T> {
        Map::new(
            |k: Seq<char>| exists|i: int| 0 <= i < self.entries@.len() && self.entries@[i].0@ == k,
            |k: Seq<char>|
                self.entries@[choose|i: int|
                    0 <= i < self.entries@.len() && self.entries@[i].0@ == k].1,
        )
    }

    /// No track occurs twice.
    pub closed spec fn wf(&self) -> bool {
        forall|i: int, j: int|
            0 <= i < j < self.entries@.len() ==> self.entries@[i].0@ != self.entries@[j].0@
    }

    /// An empty registry.
    pub fn new() -> (r: Self)
        ensures
            r.wf(),
            r.view_map() == Map::<Seq<char>, T>::empty(),
    {
        let r = DownloadRegistry { entries: Vec::new() };
        assert(r.view_map() =~= Map::<Seq<char>, T>::empty());
        r
    }

    fn find(&self, key: &String) -> (pos: Option<usize>)
        ensures
            match pos {
                Some(i) => i < self.entries@.len() && self.entries@[i as int].0@ == key@,
                None => forall|i: int| 0 <= i < self.entries@.len() ==> self.entries@[i].0@ != key@,
            },
    {
        let mut i: usize = 0;
        while i < self.entries.len()
            invariant
                i <= self.entries@.len(),
                forall|j: int| 0 <= j < i ==> self.entries@[j].0@ != key@,
            decreases self.entries@.len() - i,
        {
            if self.entries[i].0 == *key {
                return Some(i);
            }
            i = i + 1;
        }
        None
    }

    /// What the download of `urn` left for those who wait on it, if one is
    /// under way.
    pub fn get(&self, urn: &str) -> (found: Option<&T>)
        requires
            self.wf(),
        ensures
            match found {
                Some(v) => self.view_map().contains_key(urn@) && *v == self.view_map()[urn@],
                None => !self.view_map().contains_key(urn@),
            },
    {
        let key = urn.to_owned();
        match self.find(&key) {
            Some(i) => {
                proof {
                    assert(self.view_map().contains_key(urn@));
                    let c = choose|j: int|
                        0 <= j < self.entries@.len() && self.entries@[j].0@ == urn@;
                    if c != i {
                        if c < i {
                            assert(self.entries@[c].0@ != self.entries@[i as int].0@);
                        } else {
                            assert(self.entries@[i as int].0@ != self.entries@[c].0@);
                        }
                    }
                }
                Some(&self.entries[i].1)
            },
            None => None,
        }
    }

    /// Joins the download of `urn` where one is under way, leaving the
    /// registry as it is; otherwise registers this caller's download under
    /// `value`, and answers `true`: this caller downloads.
    pub fn lead_or_join(&mut self, urn: &str, value: T) -> (lead: bool)
        requires
            old(self).wf(),
        ensures
            final(self).wf(),
            lead == !old(self).view_map().contains_key(urn@),
            final(self).view_map() == if lead {
                old(self).view_map().insert(urn@, value)
            } else {
                old(self).view_map()
            },
    {
        if self.get(urn).is_some() {
            false
        } else {
            self.insert(urn, value);
            true
        }
    }

    /// Registers the download of a track that is not under way yet.
    pub fn insert(&mut self, urn: &str, value: T)
        requires
            old(self).wf(),
            !old(self).view_map().contains_key(urn@),
        ensures
            final(self).wf(),
            final(self).view_map() == old(self).view_map().insert(urn@, value),
    {
        let ghost old_entries = self.entries@;
        let key = urn.to_owned();
        self.entries.push((key, value));
        proof {
            let n = old_entries.len() as int;
            assert forall|i: int| 0 <= i < n implies old_entries[i].0@ != urn@ by {
                if old_entries[i].0@ == urn@ {
                    assert(old(self).view_map().contains_key(urn@));
                }
            }
            assert forall|i: int, j: int|
                0 <= i < j < self.entries@.len() implies self.entries@[i].0@ != self.entries@[j].0@ by {
                if j == n {
                    assert(self.entries@[i] == old_entries[i]);
                } else {
                    assert(self.entries@[i] == old_entries[i] && self.entries@[j] == old_entries[j]);
                }
            }
            let m = old(self).view_map().insert(urn@, value);
            assert forall|k: Seq<char>| #[trigger] self.view_map().contains_key(k) <==> m.contains_key(k) by {
                if self.view_map().contains_key(k) {
                    let i = choose|i: int| 0 <= i < self.entries@.len() && self.entries@[i].0@ == k;
                    if i < n {
                        assert(self.entries@[i] == old_entries[i]);
                        assert(old(self).view_map().contains_key(k));
                    }
                }
                if m.contains_key(k) && k != urn@ {
                    let i = choose|i: int| 0 <= i < n && old_entries[i].0@ == k;
                    assert(self.entries@[i] == old_entries[i]);
                }
                if k == urn@ {
                    assert(self.entries@[n].0@ == k);
                }
            }
            assert forall|k: Seq<char>| #[trigger] self.view_map().contains_key(k) implies self.view_map()[k]
                == m[k] by {
                let c = choose|i: int| 0 <= i < self.entries@.len() && self.entries@[i].0@ == k;
                if k == urn@ {
                    if c != n {
                        assert(self.entries@[c] == old_entries[c]);
                    }
                } else {
                    assert(c != n);
                    assert(self.entries@[c] == old_entries[c]);
                    let d = choose|i: int| 0 <= i < n && old_entries[i].0@ == k;
                    if c != d {
                        if c < d {
                            assert(old_entries[c].0@ != old_entries[d].0@);
                        } else {
                            assert(old_entries[d].0@ != old_entries[c].0@);
                        }
                    }
                }
            }
            assert(self.view_map() =~= m);
        }
    }

    /// Forgets the download of `urn` once it has finished.
    pub fn remove(&mut self, urn: &str)
        requires
            old(self).wf(),
        ensures
            final(self).wf(),
            final(self).view_map() == old(self).view_map().remove(urn@),
    {
        let key = urn.to_owned();
        match self.find(&key) {
            Some(i) => {
                let ghost old_entries = self.entries@;
                let _gone = self.entries.remove(i);
                proof {
                    let n = old_entries.len() as int;
                    let s = self.entries@;
                    assert(s =~= old_entries.remove(i as int));
                    assert forall|a: int, b: int| 0 <= a < b < s.len() implies s[a].0@ != s[b].0@ by {
                        let a0 = if a < i { a } else { a + 1 };
                        let b0 = if b < i { b } else { b + 1 };
                        assert(s[a] == old_entries[a0] && s[b] == old_entries[b0]);
                    }
                    let m = old(self).view_map().remove(urn@);
                    assert forall|k: Seq<char>| #[trigger] self.view_map().contains_key(k) <==> m.contains_key(k) by {
                        if self.view_map().contains_key(k) {
                            let a = choose|a: int| 0 <= a < s.len() && s[a].0@ == k;
                            let a0 = if a < i { a } else { a + 1 };
                            assert(s[a] == old_entries[a0]);
                            assert(old(self).view_map().contains_key(k));
                            if k == urn@ {
                                assert(old_entries[a0].0@ == old_entries[i as int].0@);
                                if a0 < i {
                                    assert(old_entries[a0].0@ != old_entries[i as int].0@);
                                } else {
                                    assert(old_entries[i as int].0@ != old_entries[a0].0@);
                                }
                            }
                        }
                        if m.contains_key(k) {
                            let a0 = choose|a: int| 0 <= a < n && old_entries[a].0@ == k;
                            assert(a0 != i);
                            let a = if a0 < i { a0 } else { a0 - 1 };
                            assert(s[a] == old_entries[a0]);
                        }
                    }
                    assert forall|k: Seq<char>| #[trigger] self.view_map().contains_key(k) implies self.view_map()[k]
                        == m[k] by {
                        let a = choose|a: int| 0 <= a < s.len() && s[a].0@ == k;
                        let a0 = if a < i { a } else { a + 1 };
                        assert(s[a] == old_entries[a0]);
                        let d = choose|d: int| 0 <= d < n && old_entries[d].0@ == k;
                        if a0 != d {
                            if a0 < d {
                                assert(old_entries[a0].0@ != old_entries[d].0@);
                            } else {
                                assert(old_entries[d].0@ != old_entries[a0].0@);
                            }
                        }
                    }
                    assert(self.view_map() =~= m);
                }
            },
            None => {
                proof {
                    assert(old(self).view_map().remove(urn@) =~= old(self).view_map());
                }
            },
        }
    }
}

/// Something that happens to the downloads under way: a request for a
/// track that is not cached yet, or the end of a track's download.
pub enum CoalesceEvent {
    Request(Seq<char>),
    Finish(Seq<char>),
}

/// The tracks being downloaded after an event, and whether a request
/// starts a download (it does exactly where none of its track is under
/// way; otherwise it joins that one).
pub open spec fn coalesce_step(in_flight: Set<Seq<char>>, e: CoalesceEvent) -> (Set<Seq<char>>, bool) {
    match e {
        CoalesceEvent::Request(u) => (in_flight.insert(u), !in_flight.contains(u)),
        CoalesceEvent::Finish(u) => (in_flight.remove(u), false),
    }
}

/// The tracks being downloaded after a run of events from none.
pub open spec fn in_flight_after(es: Seq<CoalesceEvent>) -> Set<Seq<char>>
    decreases es.len(),
{
    if es.len() == 0 {
        Set::empty()
    } else {
        coalesce_step(in_flight_after(es.drop_last()), es.last()).0
    }
}

/// How many downloads of `u` were started since its last download ended.
pub open spec fn downloads_of(es: Seq<CoalesceEvent>, u: Seq<char>) -> int
    decreases es.len(),
{
    if es.len() == 0 {
        0
    } else {
        let before = downloads_of(es.drop_last(), u);
        match es.last() {
            CoalesceEvent::Finish(v) => if v == u {
                0
            } else {
                before
            },
            CoalesceEvent::Request(v) => if v == u && coalesce_step(
                in_flight_after(es.drop_last()),
                es.last(),
            ).1 {
                before + 1
            } else {
                before
            },
        }
    }
}

/// Requests for a track coalesce: at most one download of it is under
/// way at any time, and one is exactly while it is registered.
pub proof fn lemma_one_download_per_track(es: Seq<CoalesceEvent>, u: Seq<char>)
    ensures
        0 <= downloads_of(es, u) <= 1,
        downloads_of(es, u) == 1 <==> in_flight_after(es).contains(u),
    decreases es.len(),
{
    if es.len() > 0 {
        lemma_one_download_per_track(es.drop_last(), u);
    }
}

} // verus!
