//! The daemon: its lifecycle rules and its core state. The lifecycle side
//! decides where the rendezvous files live, whether an instance is already
//! alive, and what a start attempt may do. The core side holds the secret
//! cache in lock-step with a model of the durable store and answers every
//! protocol command.

use vstd::prelude::*;
use vstd::string::StrSliceExecFns;
use vstd::string::StringExecFns;

use crate::cache::{keys_unique, map_of, SecretCache};
use crate::error::{message_sp, ErrorView, SvenError};
use crate::protocol::{CommandView, DaemonCommand, DaemonResponse, ResponseView};

verus! {

/// A character the marker parser treats as surrounding whitespace.
pub open spec fn is_space(c: char) -> bool {
    c == ' ' || c == '\n' || c == '\t' || c == '\r'
}

pub open spec fn is_digit(c: char) -> bool {
    '0' <= c && c <= '9'
}

/// The number a sequence of decimal digits stands for.
pub open spec fn digits_val(s: Seq<char>) -> int
    decreases s.len(),
{
    if s.len() == 0 {
        0
    } else {
        digits_val(s.drop_last()) * 10 + (s.last() as u32 - 48)
    }
}

pub open spec fn all_digits(s: Seq<char>) -> bool {
    forall|i: int| 0 <= i < s.len() ==> is_digit(#[trigger] s[i])
}

pub open spec fn trim_front(s: Seq<char>) -> Seq<char>
    decreases s.len(),
{
    if s.len() > 0 && is_space(s[0]) {
        trim_front(s.drop_first())
    } else {
        s
    }
}

pub open spec fn trim_back(s: Seq<char>) -> Seq<char>
    decreases s.len(),
{
    if s.len() > 0 && is_space(s.last()) {
        trim_back(s.drop_last())
    } else {
        s
    }
}

/// The text with surrounding whitespace removed.
pub open spec fn trim_sp(s: Seq<char>) -> Seq<char> {
    trim_back(trim_front(s))
}

/// The digit part of a trimmed marker text: an optional leading plus sign
/// is allowed, as the standard integer parser allows it.
pub open spec fn pid_digits(t: Seq<char>) -> Seq<char> {
    if t.len() > 0 && t[0] == '+' {
        t.drop_first()
    } else {
        t
    }
}

/// The marker text up to its first line break: what one line-read of the
/// file sees.
pub open spec fn first_line(s: Seq<char>) -> Seq<char>
    decreases s.len(),
{
    if s.len() == 0 {
        Seq::empty()
    } else if s[0] == '\n' {
        Seq::empty()
    } else {
        seq![s[0]] + first_line(s.drop_first())
    }
}

/// The process id a marker file's text names, if it names one: only the
/// first line counts, surrounding whitespace is ignored, and the rest must
/// be decimal digits (after an optional plus sign) whose value fits in 32
/// bits.
pub open spec fn marker_pid_sp(s: Seq<char>) -> Option<u32> {
    let d = pid_digits(trim_sp(first_line(s)));
    if d.len() > 0 && all_digits(d) && digits_val(d) <= u32::MAX {
        Some(digits_val(d) as u32)
    } else {
        None
    }
}

/// The first line is the longest newline-free prefix.
proof fn lemma_first_line_take(s: Seq<char>, k: int)
    requires
        0 <= k <= s.len(),
        forall|j: int| 0 <= j < k ==> s[j] != '\n',
        k == s.len() || s[k] == '\n',
    ensures
        first_line(s) == s.take(k),
    decreases k,
{
    if k == 0 {
        assert(s.take(0) =~= Seq::<char>::empty());
        if s.len() == 0 {
            assert(first_line(s) =~= s.take(0));
        } else {
            assert(s[0] == '\n');
        }
    } else {
        assert(s[0] != '\n');
        assert forall|j: int| 0 <= j < k - 1 implies s.drop_first()[j] != '\n' by {
            assert(s.drop_first()[j] == s[j + 1]);
        }
        lemma_first_line_take(s.drop_first(), k - 1);
        assert(seq![s[0]] + s.drop_first().take(k - 1) =~= s.take(k));
    }
}

proof fn lemma_digits_val_nonneg(s: Seq<char>)
    requires
        all_digits(s),
    ensures
        digits_val(s) >= 0,
    decreases s.len(),
{
    if s.len() > 0 {
        assert(all_digits(s.drop_last()));
        lemma_digits_val_nonneg(s.drop_last());
    }
}

/// Appending digits never shrinks the value.
proof fn lemma_digits_val_mono(s: Seq<char>, i: int)
    requires
        all_digits(s),
        0 <= i <= s.len(),
    ensures
        digits_val(s) >= digits_val(s.take(i)),
    decreases s.len() - i,
{
    if i < s.len() {
        lemma_digits_val_mono(s, i + 1);
        assert(s.take(i + 1).drop_last() =~= s.take(i));
        assert(all_digits(s.take(i)));
        lemma_digits_val_nonneg(s.take(i));
        assert(s[i] as u32 >= 48);
        assert(digits_val(s.take(i + 1)) == digits_val(s.take(i)) * 10 + (s[i] as u32 - 48));
    } else {
        assert(s.take(i) =~= s);
    }
}

/// The daemon's process-level lifecycle: rendezvous paths, liveness
/// judgment, and start planning.
pub struct Daemon;

/// `s` ends with the given suffix.
pub open spec fn ends_with(s: Seq<char>, suffix: Seq<char>) -> bool {
    s.len() >= suffix.len() && s.skip(s.len() - suffix.len()) == suffix
}

/// Relies on dirs::runtime_dir: the user's runtime directory, if the
/// platform defines one; converted to text, or `None` where that fails.
#[verifier::external_body]
fn runtime_dir_string() -> (r: Option<String>)
{
    dirs::runtime_dir().and_then(|p| p.into_os_string().into_string().ok())
}

/// The directory a rendezvous path lives in, given what the platform
/// named: the runtime directory where one exists, the usual temporary
/// directory otherwise.
pub open spec fn rendezvous_dir_sp(base: Option<String>) -> Seq<char> {
    match base {
        Some(d) => d@,
        None => "/tmp"@,
    }
}

/// What a permitted start attempt must do before the daemon detaches.
#[derive(Debug, Clone, Copy, PartialEq, Eq, Structural)]
pub struct StartPlan {
    /// A leftover endpoint file from a crashed instance must be removed
    /// before binding anew.
    pub remove_stale_socket: bool,
}

impl Daemon {
    /// The rendezvous path for a given well-known file name: exactly the
    /// drawn base directory — or the usual temporary directory where none
    /// was drawn — followed by that name.
    pub fn path_in(base: Option<String>, name: &str) -> (r: String)
        ensures
            r@ == rendezvous_dir_sp(base) + name@,
    {
        let mut p = match base {
            Some(d) => d,
            None => String::from_str("/tmp"),
        };
        p.append(name);
        p
    }

    /// The rendezvous endpoint path: the socket file in the directory the
    /// platform named (`path_in` says exactly how the two compose).
    pub fn get_socket_path() -> (r: Result<String, SvenError>)
        ensures
            r matches Ok(p) && ends_with(p@, "/sven.sock"@),
    {
        let p = Self::path_in(runtime_dir_string(), "/sven.sock");
        proof {
            assert(p@.skip(p@.len() - "/sven.sock"@.len()) =~= "/sven.sock"@);
        }
        Ok(p)
    }

    /// The lifecycle marker path: the pid file in the directory the
    /// platform named (`path_in` says exactly how the two compose).
    pub fn get_pid_file_path() -> (r: Result<String, SvenError>)
        ensures
            r matches Ok(p) && ends_with(p@, "/sven.pid"@),
    {
        let p = Self::path_in(runtime_dir_string(), "/sven.pid");
        proof {
            assert(p@.skip(p@.len() - "/sven.pid"@.len()) =~= "/sven.pid"@);
        }
        Ok(p)
    }

    /// Reads the process id out of a marker file's text; exactly the texts
    /// `marker_pid_sp` accepts succeed.
    pub fn parse_marker_pid(contents: &str) -> (r: Result<u32, SvenError>)
        ensures
            match r {
                Ok(pid) => marker_pid_sp(contents@) == Some(pid),
                Err(e) => marker_pid_sp(contents@) is None && e@ == ErrorView::ConfigError(
                    "Invalid PID in PID file"@,
                ),
            },
    {
        let n: usize = contents.unicode_len();
        // only the first line of the file names the pid
        let mut limit: usize = 0;
        while limit < n
            invariant
                n == contents@.len(),
                0 <= limit <= n,
                forall|j: int| 0 <= j < limit ==> contents@[j] != '\n',
            ensures
                n == contents@.len(),
                0 <= limit <= n,
                forall|j: int| 0 <= j < limit ==> contents@[j] != '\n',
                limit < n ==> contents@[limit as int] == '\n',
            decreases n - limit,
        {
            if contents.get_char(limit) == '\n' {
                break;
            }
            limit = limit + 1;
        }
        let ghost line = first_line(contents@);
        proof {
            lemma_first_line_take(contents@, limit as int);
            assert(line == contents@.take(limit as int));
            assert(line.len() == limit);
        }
        // strip leading whitespace
        let mut start: usize = 0;
        assert(line.skip(0) =~= line);
        while start < limit
            invariant
                n == contents@.len(),
                line == first_line(contents@),
                line == contents@.take(limit as int),
                0 <= start <= limit <= n,
                trim_front(line) == trim_front(line.skip(start as int)),
            ensures
                n == contents@.len(),
                line == first_line(contents@),
                line == contents@.take(limit as int),
                0 <= start <= limit <= n,
                trim_front(line) == trim_front(line.skip(start as int)),
                start < limit ==> !is_space(line[start as int]),
            decreases limit - start,
        {
            let c = contents.get_char(start);
            proof {
                assert(line[start as int] == contents@[start as int]);
            }
            if !(c == ' ' || c == '\n' || c == '\t' || c == '\r') {
                break;
            }
            proof {
                assert(line.skip(start as int).drop_first() =~= line.skip(start + 1 as int));
            }
            start = start + 1;
        }
        proof {
            assert(line.skip(start as int).len() == limit - start);
            if start < limit {
                assert(line.skip(start as int)[0] == line[start as int]);
            }
            assert(trim_front(line) =~= line.skip(start as int));
        }
        // strip trailing whitespace
        let mut end: usize = limit;
        while end > start
            invariant
                n == contents@.len(),
                line == first_line(contents@),
                line == contents@.take(limit as int),
                start <= end <= limit <= n,
                trim_front(line) == line.skip(start as int),
                trim_back(line.skip(start as int)) == trim_back(
                    line.subrange(start as int, end as int),
                ),
            ensures
                n == contents@.len(),
                line == first_line(contents@),
                line == contents@.take(limit as int),
                start <= end <= limit <= n,
                trim_front(line) == line.skip(start as int),
                trim_back(line.skip(start as int)) == trim_back(
                    line.subrange(start as int, end as int),
                ),
                end > start ==> !is_space(line[end - 1]),
            decreases end,
        {
            let c = contents.get_char(end - 1);
            proof {
                assert(line[end - 1] == contents@[end - 1]);
            }
            if !(c == ' ' || c == '\n' || c == '\t' || c == '\r') {
                break;
            }
            proof {
                let cur = line.subrange(start as int, end as int);
                assert(cur.last() == line[end - 1]);
                assert(cur.drop_last() =~= line.subrange(start as int, end - 1));
            }
            end = end - 1;
        }
        let ghost t = trim_sp(line);
        proof {
            let cur = line.subrange(start as int, end as int);
            if end > start {
                assert(cur.last() == line[end - 1]);
            }
            assert(trim_back(cur) =~= cur);
            assert(t =~= line.subrange(start as int, end as int));
            assert(t =~= contents@.subrange(start as int, end as int));
        }
        // skip one optional plus sign
        let mut dstart: usize = start;
        if start < end {
            if contents.get_char(start) == '+' {
                dstart = start + 1;
            }
        }
        let ghost d = pid_digits(t);
        proof {
            if start < end && contents@[start as int] == '+' {
                assert(t[0] == '+');
                assert(d =~= contents@.subrange(dstart as int, end as int));
            } else {
                assert(d =~= contents@.subrange(dstart as int, end as int));
            }
        }
        if dstart == end {
            proof {
                assert(d.len() == 0);
            }
            return Err(SvenError::ConfigError(String::from_str("Invalid PID in PID file")));
        }
        // accumulate the digits
        let mut acc: u64 = 0;
        let mut i: usize = dstart;
        while i < end
            invariant
                n == contents@.len(),
                dstart <= i <= end <= n,
                d == pid_digits(trim_sp(first_line(contents@))),
                d == contents@.subrange(dstart as int, end as int),
                all_digits(d.take(i - dstart)),
                acc == digits_val(d.take(i - dstart)),
                acc <= u32::MAX,
            decreases end - i,
        {
            let c = contents.get_char(i);
            proof {
                assert(d[i - dstart] == contents@[i as int]);
            }
            if !(c >= '0' && c <= '9') {
                proof {
                    assert(!is_digit(d[i - dstart]));
                    assert(!all_digits(d));
                }
                return Err(SvenError::ConfigError(String::from_str("Invalid PID in PID file")));
            }
            let digit: u64 = (c as u32 as u64) - 48;
            let acc2: u64 = acc * 10 + digit;
            proof {
                assert(d.take(i - dstart + 1).drop_last() =~= d.take(i - dstart));
                assert(d.take(i - dstart + 1).last() == d[i - dstart]);
                assert(all_digits(d.take(i - dstart + 1)));
                assert(acc2 == digits_val(d.take(i - dstart + 1)));
            }
            if acc2 > 0xffff_ffff {
                proof {
                    if all_digits(d) {
                        lemma_digits_val_mono(d, i - dstart + 1);
                        assert(digits_val(d) > u32::MAX);
                    }
                }
                return Err(SvenError::ConfigError(String::from_str("Invalid PID in PID file")));
            }
            acc = acc2;
            i = i + 1;
        }
        proof {
            assert(d.take(end - dstart) =~= d);
        }
        Ok(acc as u32)
    }

    /// Whether an instance is judged alive: true exactly when the marker
    /// file exists, its first line names a well-formed process id, and
    /// that process exists. A marker naming a dead process — or one whose
    /// text names no process id at all — counts as not running, so a stale
    /// or corrupt leftover is safe to overwrite.
    ///
    /// `marker` is the marker file's text where the file exists;
    /// `pid_alive` is whether the process named by the marker exists, and
    /// is only read where the marker parses.
    pub fn is_daemon_running(marker: Option<&str>, pid_alive: bool) -> (r: Result<bool, SvenError>)
        ensures
            marker is None ==> r == Ok::<bool, SvenError>(false),
            marker matches Some(c) ==> match marker_pid_sp(c@) {
                Some(_) => r == Ok::<bool, SvenError>(pid_alive),
                None => r == Ok::<bool, SvenError>(false),
            },
    {
        match marker {
            None => Ok(false),
            Some(c) => {
                match Self::parse_marker_pid(c) {
                    Ok(_) => Ok(pid_alive),
                    Err(_) => Ok(false),
                }
            },
        }
    }

    /// What a start attempt may do: nothing at all while an instance is
    /// judged alive; otherwise the caller must clear a stale endpoint file
    /// exactly where one exists, then detach and run.
    pub fn plan_start(already_running: bool, socket_file_exists: bool) -> (r: Result<
        StartPlan,
        SvenError,
    >)
        ensures
            already_running ==> (r matches Err(e) && e@ == ErrorView::ConfigError(
                "Daemon is already running"@,
            )),
            !already_running ==> r == Ok::<StartPlan, SvenError>(
                StartPlan { remove_stale_socket: socket_file_exists },
            ),
    {
        if already_running {
            Err(SvenError::ConfigError(String::from_str("Daemon is already running")))
        } else {
            Ok(StartPlan { remove_stale_socket: socket_file_exists })
        }
    }
}

// ---------------------------------------------------------------------------
// The persistence worker's requests and replies
// ---------------------------------------------------------------------------

/// One request to the persistence worker, which owns the cipher and the
/// store and applies mutations strictly in arrival order.
#[derive(Debug, Clone)]
pub enum WorkerRequest {
    AddSecret { key: String, value: String },
    RemoveSecret { key: String },
    Shutdown,
}

/// The mathematical shape of a worker request.
pub enum WorkerRequestView {
    AddSecret { key: Seq<char>, value: Seq<char> },
    RemoveSecret { key: Seq<char> },
    Shutdown,
}

impl View for WorkerRequest {
    type V = WorkerRequestView;

    open spec fn view(&self) -> WorkerRequestView {
        match self {
            WorkerRequest::AddSecret { key, value } => WorkerRequestView::AddSecret {
                key: key@,
                value: value@,
            },
            WorkerRequest::RemoveSecret { key } => WorkerRequestView::RemoveSecret { key: key@ },
            WorkerRequest::Shutdown => WorkerRequestView::Shutdown,
        }
    }
}

/// The worker's reply for one mutation, given whether the durable
/// operation succeeded: the exact confirmation message on success, the
/// store's error unchanged on failure.
pub fn worker_reply(req: &WorkerRequest, db_result: Result<(), SvenError>) -> (r: Result<
    String,
    SvenError,
>)
    requires
        !(req@ is Shutdown),
    ensures
        match req@ {
            WorkerRequestView::AddSecret { key, .. } => match db_result {
                Ok(_) => (r matches Ok(msg) && msg@ == "Added secret: "@ + key),
                Err(e) => r == Err::<String, SvenError>(e),
            },
            WorkerRequestView::RemoveSecret { key } => match db_result {
                Ok(_) => (r matches Ok(msg) && msg@ == "Removed secret: "@ + key),
                Err(e) => r == Err::<String, SvenError>(e),
            },
            WorkerRequestView::Shutdown => true,
        },
{
    match db_result {
        Err(e) => Err(e),
        Ok(_) => match req {
            WorkerRequest::AddSecret { key, .. } => {
                let mut s = String::from_str("Added secret: ");
                s.append(key.as_str());
                Ok(s)
            },
            WorkerRequest::RemoveSecret { key } => {
                let mut s = String::from_str("Removed secret: ");
                s.append(key.as_str());
                Ok(s)
            },
            WorkerRequest::Shutdown => {
                Ok(String::new())
            },
        },
    }
}

// ---------------------------------------------------------------------------
// The daemon core: the cache in lock-step with the store
// ---------------------------------------------------------------------------

/// A correct listing response for the mapping `m`: the pairs stand for
/// exactly `m`, with no key twice.
pub open spec fn secrets_response_ok(m: Map<Seq<char>, Seq<char>>, rv: ResponseView) -> bool {
    match rv {
        ResponseView::Secrets(ps) => map_of(ps) == m && keys_unique(ps),
        _ => false,
    }
}

/// A correct key-listing response for the mapping `m`: exactly `m`'s keys,
/// each once.
pub open spec fn keylist_response_ok(m: Map<Seq<char>, Seq<char>>, rv: ResponseView) -> bool {
    match rv {
        ResponseView::KeyList(ks) => (forall|a: int, b: int|
            0 <= a < b < ks.len() ==> ks[a] != ks[b]) && (forall|k: Seq<char>|
            ks.contains(k) <==> m.contains_key(k)),
        _ => false,
    }
}

/// What the request handler must do with one decoded command.
pub enum HandlerStep {
    /// Answer at once from the cache.
    Reply(DaemonResponse),
    /// Hand the request to the persistence worker, await its reply, then
    /// call `apply_mutation`.
    Mutate(WorkerRequest),
    /// Signal the lifecycle controller to shut down, and answer this.
    BeginShutdown(DaemonResponse),
}

/// The daemon's core state: the in-memory secret cache, in lock-step with
/// the decrypted contents of the durable store. The view is the cached
/// mapping; `store_contents` is the store model, updated exactly when a
/// mutation is confirmed durable.
pub struct DaemonCore {
    cache: SecretCache,
    store: Ghost<Map<Seq<char>, Seq<char>>>,
}

impl View for DaemonCore {
    type V = Map<Seq<char>, Seq<char>>;

    closed spec fn view(&self) -> Map<Seq<char>, Seq<char>> {
        self.cache@
    }
}

impl DaemonCore {
    /// Well-formed: the cache holds each key once, and its mapping equals
    /// the decrypted contents of the store.
    pub closed spec fn wf(&self) -> bool {
        self.cache.wf() && self.cache@ == self.store@
    }

    /// The decrypted contents of the durable store, as of the last
    /// confirmed mutation.
    pub closed spec fn store_contents(&self) -> Map<Seq<char>, Seq<char>> {
        self.store@
    }

    /// Builds the core at daemon startup from the full decrypted store
    /// dump; the cache then holds exactly the store's mapping, a later
    /// record winning where the dump repeats a key.
    pub fn init(initial: &Vec<(String, String)>) -> (r: DaemonCore)
        ensures
            r.wf(),
            r@ == map_of(initial.deep_view()),
            r.store_contents() == map_of(initial.deep_view()),
    {
        let ghost dv = initial.deep_view();
        let mut cache = SecretCache::new();
        let n: usize = initial.len();
        let mut i: usize = 0;
        assert(map_of(dv.take(0)) =~= Map::<Seq<char>, Seq<char>>::empty());
        while i < n
            invariant
                n == initial.len(),
                dv == initial.deep_view(),
                0 <= i <= n,
                cache.wf(),
                cache@ == map_of(dv.take(i as int)),
            decreases n - i,
        {
            let key = initial[i].0.clone();
            let value = initial[i].1.clone();
            cache.upsert(key, value);
            proof {
                assert(dv.take(i + 1 as int).drop_last() =~= dv.take(i as int));
                assert(dv.take(i + 1 as int).last() == dv[i as int]);
            }
            i = i + 1;
        }
        proof {
            assert(dv.take(n as int) =~= dv);
        }
        DaemonCore { cache, store: Ghost(map_of(dv)) }
    }

    /// A snapshot answer for `GetSecrets`: every cached pair.
    pub fn get_secrets(&self) -> (r: DaemonResponse)
        requires
            self.wf(),
        ensures
            secrets_response_ok(self@, r@),
    {
        DaemonResponse::Secrets(self.cache.read())
    }

    /// A snapshot answer for `ListSecrets`: every cached key.
    pub fn list_secrets(&self) -> (r: DaemonResponse)
        requires
            self.wf(),
        ensures
            keylist_response_ok(self@, r@),
    {
        DaemonResponse::KeyList(self.cache.read_keys())
    }

    /// Routes one decoded command: reads answer from the cache at once,
    /// mutations go to the persistence worker, and a shutdown command
    /// signals the lifecycle controller.
    pub fn dispatch(&self, cmd: DaemonCommand) -> (r: HandlerStep)
        requires
            self.wf(),
        ensures
            dispatch_ok(self@, cmd@, r),
    {
        match cmd {
            DaemonCommand::GetSecrets { shell: _ } => HandlerStep::Reply(self.get_secrets()),
            DaemonCommand::ListSecrets => HandlerStep::Reply(self.list_secrets()),
            DaemonCommand::AddSecret { key, value } => HandlerStep::Mutate(
                WorkerRequest::AddSecret { key, value },
            ),
            DaemonCommand::RemoveSecret { key } => HandlerStep::Mutate(
                WorkerRequest::RemoveSecret { key },
            ),
            DaemonCommand::Shutdown => HandlerStep::BeginShutdown(
                DaemonResponse::Success(String::from_str("Daemon shutting down")),
            ),
        }
    }

    /// Applies the worker's reply for one mutation. A confirmed mutation
    /// updates the cache exactly as the store was updated; a failed one
    /// leaves both untouched and reports the error.
    pub fn apply_mutation(&mut self, req: WorkerRequest, outcome: Result<String, SvenError>) -> (r:
        DaemonResponse)
        requires
            old(self).wf(),
            !(req@ is Shutdown),
        ensures
            final(self).wf(),
            match req@ {
                WorkerRequestView::AddSecret { key, value } => match outcome {
                    Ok(msg) => {
                        &&& final(self)@ == old(self)@.insert(key, value)
                        &&& final(self).store_contents() == old(self).store_contents().insert(
                            key,
                            value,
                        )
                        &&& r@ == ResponseView::Success(msg@)
                    },
                    Err(e) => {
                        &&& final(self)@ == old(self)@
                        &&& final(self).store_contents() == old(self).store_contents()
                        &&& r@ == ResponseView::Error("Failed to add secret: "@ + message_sp(e@))
                    },
                },
                WorkerRequestView::RemoveSecret { key } => match outcome {
                    Ok(msg) => {
                        &&& final(self)@ == old(self)@.remove(key)
                        &&& final(self).store_contents() == old(self).store_contents().remove(key)
                        &&& r@ == ResponseView::Success(msg@)
                    },
                    Err(e) => {
                        &&& final(self)@ == old(self)@
                        &&& final(self).store_contents() == old(self).store_contents()
                        &&& r@ == ResponseView::Error(
                            "Failed to remove secret: "@ + message_sp(e@),
                        )
                    },
                },
                WorkerRequestView::Shutdown => true,
            },
    {
        match req {
            WorkerRequest::AddSecret { key, value } => match outcome {
                Ok(msg) => {
                    self.store = Ghost(self.store@.insert(key@, value@));
                    self.cache.upsert(key, value);
                    DaemonResponse::Success(msg)
                },
                Err(e) => {
                    let mut m = String::from_str("Failed to add secret: ");
                    let detail = e.message();
                    m.append(detail.as_str());
                    DaemonResponse::Error(m)
                },
            },
            WorkerRequest::RemoveSecret { key } => match outcome {
                Ok(msg) => {
                    self.store = Ghost(self.store@.remove(key@));
                    self.cache.remove(&key);
                    DaemonResponse::Success(msg)
                },
                Err(e) => {
                    let mut m = String::from_str("Failed to remove secret: ");
                    let detail = e.message();
                    m.append(detail.as_str());
                    DaemonResponse::Error(m)
                },
            },
            WorkerRequest::Shutdown => {
                DaemonResponse::Success(String::new())
            },
        }
    }
}

/// What `dispatch` owes for each command: listing commands are answered
/// exactly from the mapping, mutations become the matching worker request,
/// and shutdown begins the shutdown with its fixed confirmation.
pub open spec fn dispatch_ok(m: Map<Seq<char>, Seq<char>>, c: CommandView, r: HandlerStep) -> bool {
    match c {
        CommandView::GetSecrets { .. } => (r matches HandlerStep::Reply(resp)
            && secrets_response_ok(m, resp@)),
        CommandView::ListSecrets => (r matches HandlerStep::Reply(resp) && keylist_response_ok(
            m,
            resp@,
        )),
        CommandView::AddSecret { key, value } => (r matches HandlerStep::Mutate(w) && w@
            == (WorkerRequestView::AddSecret { key, value })),
        CommandView::RemoveSecret { key } => (r matches HandlerStep::Mutate(w) && w@
            == (WorkerRequestView::RemoveSecret { key })),
        CommandView::Shutdown => (r matches HandlerStep::BeginShutdown(resp) && resp@
            == ResponseView::Success("Daemon shutting down"@)),
    }
}

/// The error response for a worker whose reply channel died mid-request.
pub fn channel_failure_response(detail: &str) -> (r: DaemonResponse)
    ensures
        r@ == ResponseView::Error("Failed to communicate with database thread: "@ + detail@),
{
    let mut m = String::from_str("Failed to communicate with database thread: ");
    m.append(detail);
    DaemonResponse::Error(m)
}

// ---------------------------------------------------------------------------
// Laws of the mutation history
// ---------------------------------------------------------------------------

/// One mutation as the persistence worker saw it: what was asked, and
/// whether the store confirmed it durable.
pub enum MutationView {
    Add { key: Seq<char>, value: Seq<char>, ok: bool },
    Remove { key: Seq<char>, ok: bool },
}

/// The mapping after one mutation: a confirmed addition inserts, a
/// confirmed removal removes, and an unconfirmed mutation changes nothing,
/// exactly as `apply_mutation` behaves.
pub open spec fn apply_op(m: Map<Seq<char>, Seq<char>>, op: MutationView) -> Map<
    Seq<char>,
    Seq<char>,
> {
    match op {
        MutationView::Add { key, value, ok } => if ok {
            m.insert(key, value)
        } else {
            m
        },
        MutationView::Remove { key, ok } => if ok {
            m.remove(key)
        } else {
            m
        },
    }
}

/// The mapping after a whole history of mutations, applied in the
/// worker's arrival order.
pub open spec fn apply_ops(m: Map<Seq<char>, Seq<char>>, ops: Seq<MutationView>) -> Map<
    Seq<char>,
    Seq<char>,
>
    decreases ops.len(),
{
    if ops.len() == 0 {
        m
    } else {
        apply_op(apply_ops(m, ops.drop_last()), ops.last())
    }
}

/// Cache–store consistency: while the daemon core is well formed — which
/// `init` establishes and `apply_mutation` preserves after every
/// confirmed or failed operation — the cached mapping equals the
/// decrypted contents of the store, key set included, at every
/// observable point between operations.
pub proof fn lemma_cache_store_consistency(core: DaemonCore)
    requires
        core.wf(),
    ensures
        core@ == core.store_contents(),
        core@.dom() == core.store_contents().dom(),
{
}

/// Idempotent removal: a confirmed removal of a key absent from the
/// mapping succeeds and leaves the mapping — cache and store alike —
/// unchanged.
pub proof fn lemma_idempotent_removal(m: Map<Seq<char>, Seq<char>>, key: Seq<char>)
    requires
        !m.contains_key(key),
    ensures
        apply_op(m, (MutationView::Remove { key, ok: true })) == m,
{
    assert(m.remove(key) =~= m);
}

/// Overwrite semantics: two confirmed additions under one key, in order,
/// leave exactly one record for that key, holding the second value.
pub proof fn lemma_overwrite(
    m: Map<Seq<char>, Seq<char>>,
    key: Seq<char>,
    v1: Seq<char>,
    v2: Seq<char>,
)
    ensures
        ({
            let m2 = apply_op(
                apply_op(m, (MutationView::Add { key, value: v1, ok: true })),
                (MutationView::Add { key, value: v2, ok: true }),
            );
            &&& m2 == m.insert(key, v2)
            &&& m2[key] == v2
            &&& m2.dom() == m.dom().insert(key)
        }),
{
    assert(m.insert(key, v1).insert(key, v2) =~= m.insert(key, v2));
    assert(m.insert(key, v2).dom() =~= m.dom().insert(key));
}

/// The mutation is an addition the store confirmed.
pub open spec fn confirmed_add(op: MutationView) -> bool {
    op matches MutationView::Add { ok: true, .. }
}

pub open spec fn op_key(op: MutationView) -> Seq<char> {
    match op {
        MutationView::Add { key, .. } => key,
        MutationView::Remove { key, .. } => key,
    }
}

pub open spec fn op_value(op: MutationView) -> Seq<char> {
    match op {
        MutationView::Add { value, .. } => value,
        MutationView::Remove { .. } => Seq::empty(),
    }
}

/// Serialized mutation, no lost update: when additions for pairwise
/// distinct keys are each confirmed — the worker's queue applies them one
/// at a time in arrival order — every one of the keys is present
/// afterwards with its own value, whatever order the requests arrived in.
pub proof fn lemma_no_lost_update(m: Map<Seq<char>, Seq<char>>, ops: Seq<MutationView>)
    requires
        forall|i: int| 0 <= i < ops.len() ==> confirmed_add(#[trigger] ops[i]),
        forall|i: int, j: int|
            0 <= i < j < ops.len() ==> op_key(#[trigger] ops[i]) != op_key(#[trigger] ops[j]),
    ensures
        forall|i: int|
            0 <= i < ops.len() ==> apply_ops(m, ops).contains_key(op_key(#[trigger] ops[i]))
                && apply_ops(m, ops)[op_key(ops[i])] == op_value(ops[i]),
    decreases ops.len(),
{
    if ops.len() > 0 {
        let init = ops.drop_last();
        assert(forall|i: int| 0 <= i < init.len() ==> confirmed_add(#[trigger] init[i]));
        assert(forall|i: int, j: int|
            0 <= i < j < init.len() ==> op_key(#[trigger] init[i]) != op_key(#[trigger] init[j]));
        lemma_no_lost_update(m, init);
        let last = ops.last();
        assert(confirmed_add(last));
        assert(apply_ops(m, ops) == apply_ops(m, init).insert(op_key(last), op_value(last)));
        assert forall|i: int|
            0 <= i < ops.len() implies apply_ops(m, ops).contains_key(
            op_key(#[trigger] ops[i]),
        ) && apply_ops(m, ops)[op_key(ops[i])] == op_value(ops[i]) by {
            if i < ops.len() - 1 {
                assert(init[i] == ops[i]);
                assert(op_key(ops[i]) != op_key(last));
            }
        }
    }
}

} // verus!
