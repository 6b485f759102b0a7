//! The uploader's own decisions: which replays wait for upload and in what
//! order they are listed, which screen comes next, and the log lines that
//! tell the user what happened.
use vstd::prelude::*;
use vstd::string::*;

use crate::gbx_parser::{GbxHeader, GbxHeaderModel};
use crate::logs::{Log, LogKind};
use crate::mx_client::client_error::{is_message_of, ClientError};
use crate::mx_client::upload_response::UploadResponse;
use crate::pref::Pref;
use crate::text::{decimal, ends_with, has_suffix, push_decimal};

verus! {

/// Replays in the queue as plain values: each header with the second it
/// was saved at.
pub type QueueView = Seq<(GbxHeaderModel, usize)>;

/// The index of the first queued replay of the map `uid`.
pub open spec fn find_uid(q: QueueView, uid: Seq<char>) -> Option<int>
    decreases q.len(),
{
    if q.len() == 0 {
        None
    } else {
        match find_uid(q.drop_last(), uid) {
            Some(i) => Some(i),
            None => if q.last().0.replay.uid == uid { Some(q.len() - 1) } else { None },
        }
    }
}

/// The queue after a replay of the map `h.replay.uid` saved at `t`: it
/// replaces the queued replay of that map, or joins the end.
pub open spec fn queue_insert(q: QueueView, h: GbxHeaderModel, t: usize) -> QueueView {
    match find_uid(q, h.replay.uid) {
        Some(i) => q.update(i, (h, t)),
        None => q.push((h, t)),
    }
}

/// No map has two queued replays.
pub open spec fn uids_distinct(q: QueueView) -> bool {
    forall|i: int, j: int| 0 <= i < q.len() && 0 <= j < q.len() && i != j ==> q[i].0.replay.uid != q[j].0.replay.uid
}

/// `find_uid` finds the first replay of the map, and nothing when none is queued.
pub proof fn lemma_find_uid(q: QueueView, uid: Seq<char>)
    ensures
        match find_uid(q, uid) {
            Some(i) => 0 <= i < q.len() && q[i].0.replay.uid == uid
                && forall|j: int| 0 <= j < i ==> q[j].0.replay.uid != uid,
            None => forall|j: int| 0 <= j < q.len() ==> q[j].0.replay.uid != uid,
        },
    decreases q.len(),
{
    if q.len() > 0 {
        lemma_find_uid(q.drop_last(), uid);
        match find_uid(q.drop_last(), uid) {
            Some(i) => {
                assert(q.drop_last()[i] == q[i]);
                assert forall|j: int| 0 <= j < i implies q[j].0.replay.uid != uid by {
                    assert(q.drop_last()[j] == q[j]);
                }
            },
            None => {
                assert forall|j: int| 0 <= j < q.len() - 1 implies q[j].0.replay.uid != uid by {
                    assert(q.drop_last()[j] == q[j]);
                }
            },
        }
    }
}

/// The queue holds at most one replay per map, whatever is inserted.
pub proof fn lemma_queue_insert_keeps_one_per_map(q: QueueView, h: GbxHeaderModel, t: usize)
    requires
        uids_distinct(q),
    ensures
        uids_distinct(queue_insert(q, h, t)),
        exists|i: int| 0 <= i < queue_insert(q, h, t).len() && queue_insert(q, h, t)[i] == (h, t),
{
    lemma_find_uid(q, h.replay.uid);
    let q2 = queue_insert(q, h, t);
    match find_uid(q, h.replay.uid) {
        Some(i) => assert(q2[i] == (h, t)),
        None => assert(q2[q.len() as int] == (h, t)),
    }
}

/// Queuing a replay leaves the replays of the other maps where they are,
/// adds nothing else, and grows the queue only when its map had none
/// queued.
pub proof fn lemma_queue_insert_keeps_other_maps(q: QueueView, h: GbxHeaderModel, t: usize)
    ensures
        forall|i: int| 0 <= i < q.len() && q[i].0.replay.uid != h.replay.uid ==> queue_insert(q, h, t)[i] == q[i],
        forall|i: int| 0 <= i < queue_insert(q, h, t).len()
            ==> queue_insert(q, h, t)[i] == (h, t) || (i < q.len() && queue_insert(q, h, t)[i] == q[i]),
        (exists|i: int| 0 <= i < q.len() && q[i].0.replay.uid == h.replay.uid)
            ==> queue_insert(q, h, t).len() == q.len(),
        (forall|i: int| 0 <= i < q.len() ==> q[i].0.replay.uid != h.replay.uid)
            ==> queue_insert(q, h, t).len() == q.len() + 1,
{
    lemma_find_uid(q, h.replay.uid);
}

/// Queue position `i` is listed before position `j`: it was saved
/// earlier, or at the same second and queued first.
pub open spec fn listed_before(q: QueueView, i: int, j: int) -> bool {
    q[i].1 < q[j].1 || (q[i].1 == q[j].1 && i < j)
}

/// Replays waiting for upload, at most one per map.
pub struct ReplayQueue {
    entries: Vec<(GbxHeader, usize)>,
}

impl View for ReplayQueue {
    type V = QueueView;

    closed spec fn view(&self) -> QueueView {
        self.entries@.map_values(|e: (GbxHeader, usize)| (e.0@, e.1))
    }
}

impl ReplayQueue {
    /// No map has two queued replays.
    pub closed spec fn wf(&self) -> bool {
        uids_distinct(self@)
    }

    /// An empty queue.
    pub fn new() -> (q: ReplayQueue)
        ensures
            q@ == Seq::<(GbxHeaderModel, usize)>::empty(),
            q.wf(),
    {
        let q = ReplayQueue { entries: Vec::new() };
        assert(q@ =~= Seq::<(GbxHeaderModel, usize)>::empty());
        q
    }

    /// The number of queued replays.
    pub fn len(&self) -> (n: usize)
        ensures
            n == self@.len(),
    {
        self.entries.len()
    }

    /// Whether no replay is queued.
    pub fn is_empty(&self) -> (b: bool)
        ensures
            b == (self@.len() == 0),
    {
        self.entries.len() == 0
    }

    /// The replay at queue position `i`, with the second it was saved at.
    pub fn get(&self, i: usize) -> (r: (&GbxHeader, usize))
        requires
            i < self@.len(),
        ensures
            r.0@ == self@[i as int].0,
            r.1 == self@[i as int].1,
    {
        (&self.entries[i].0, self.entries[i].1)
    }

    /// The queue position of the replay of the map `uid`.
    fn position_of(&self, uid: &str) -> (r: Option<usize>)
        ensures
            match r {
                Some(k) => find_uid(self@, uid@) == Some(k as int) && k < self@.len(),
                None => find_uid(self@, uid@) is None,
            },
    {
        let mut i: usize = 0;
        while i < self.entries.len()
            invariant
                i <= self.entries.len(),
                self@.len() == self.entries.len(),
                forall|j: int| 0 <= j < i ==> self@[j].0.replay.uid != uid@,
            decreases self.entries.len() - i,
        {
            assert(self@[i as int].0 == self.entries@[i as int].0@);
            if crate::text::same_text(self.entries[i].0.uid(), uid) {
                proof {
                    lemma_find_uid(self@, uid@);
                }
                return Some(i);
            }
            i = i + 1;
        }
        proof {
            lemma_find_uid(self@, uid@);
        }
        None
    }

    /// Queues the replay `h`, saved at second `seconds`; it replaces the
    /// queued replay of the same map.
    pub fn insert(&mut self, h: GbxHeader, seconds: usize)
        requires
            old(self).wf(),
        ensures
            final(self)@ == queue_insert(old(self)@, h@, seconds),
            final(self).wf(),
    {
        let ghost hv = h@;
        let found = self.position_of(h.uid());
        proof {
            lemma_find_uid(self@, hv.replay.uid);
            lemma_queue_insert_keeps_one_per_map(self@, hv, seconds);
        }
        let ghost before = self@;
        match found {
            Some(k) => {
                self.entries.set(k, (h, seconds));
            },
            None => {
                self.entries.push((h, seconds));
            },
        }
        assert(self@ =~= queue_insert(before, hv, seconds));
    }

    /// Takes every queued replay, in queue order, and empties the queue.
    pub fn take_all(&mut self) -> (taken: Vec<GbxHeader>)
        ensures
            taken@.len() == old(self)@.len(),
            forall|i: int| 0 <= i < taken@.len() ==> #[trigger] taken@[i]@ == old(self)@[i].0,
            final(self)@.len() == 0,
            final(self).wf(),
    {
        let ghost all = self@;
        let mut rest: Vec<(GbxHeader, usize)> = Vec::new();
        std::mem::swap(&mut rest, &mut self.entries);
        let mut taken: Vec<GbxHeader> = Vec::new();
        let ghost rest0 = rest@;
        assert(all =~= rest0.map_values(|e: (GbxHeader, usize)| (e.0@, e.1)));
        while rest.len() > 0
            invariant
                taken@.len() + rest@.len() == rest0.len(),
                rest@ == rest0.skip(taken@.len() as int),
                all.len() == rest0.len(),
                all =~= rest0.map_values(|e: (GbxHeader, usize)| (e.0@, e.1)),
                forall|i: int| 0 <= i < taken@.len() ==> #[trigger] taken@[i]@ == all[i].0,
            decreases rest.len(),
        {
            let (h, _) = rest.remove(0);
            proof {
                assert(rest0[taken@.len() as int].0 == h);
            }
            taken.push(h);
            assert(rest@ =~= rest0.skip(taken@.len() as int));
        }
        assert(self@ =~= Seq::<(GbxHeaderModel, usize)>::empty());
        taken
    }

    /// The queue positions in listing order: by the second each replay
    /// was saved at, earliest first, ties in queue order. Each position
    /// appears once.
    pub fn order_by_time(&self) -> (order: Vec<usize>)
        ensures
            order@.len() == self@.len(),
            forall|a: int| 0 <= a < order@.len() ==> order@[a] < self@.len(),
            forall|a: int, b: int| 0 <= a < b < order@.len() ==> listed_before(self@, order@[a] as int, order@[b] as int),
    {
        let ghost q = self@;
        let n = self.entries.len();
        let mut order: Vec<usize> = Vec::new();
        let mut i: usize = 0;
        while i < n
            invariant
                n == self.entries.len(),
                q == self@,
                q.len() == n,
                i <= n,
                order@.len() == i,
                forall|a: int| 0 <= a < order@.len() ==> order@[a] < i,
                forall|a: int, b: int| 0 <= a < b < order@.len() ==> listed_before(q, order@[a] as int, order@[b] as int),
            decreases n - i,
        {
            let t = self.entries[i].1;
            assert(q[i as int].1 == t);
            let mut p: usize = 0;
            while p < order.len() && self.entries[order[p]].1 <= t
                invariant
                    n == self.entries.len(),
                    q == self@,
                    q.len() == n,
                    i < n,
                    q[i as int].1 == t,
                    p <= order@.len(),
                    order@.len() == i,
                    forall|a: int| 0 <= a < order@.len() ==> order@[a] < i,
                    forall|a: int| 0 <= a < p ==> listed_before(q, order@[a] as int, i as int),
                decreases order.len() - p,
            {
                assert(q[order@[p as int] as int].1 == self.entries@[order@[p as int] as int].1);
                p = p + 1;
            }
            proof {
                if p < order@.len() {
                    assert(q[order@[p as int] as int].1 == self.entries@[order@[p as int] as int].1);
                    assert forall|a: int| p <= a < order@.len() implies listed_before(q, i as int, order@[a] as int) by {
                        if a > p {
                            assert(listed_before(q, order@[p as int] as int, order@[a] as int));
                        }
                    }
                }
            }
            let ghost old_order = order@;
            order.insert(p, i);
            assert forall|a: int, b: int| 0 <= a < b < order@.len() implies listed_before(q, order@[a] as int, order@[b] as int) by {
                if b < p {
                    assert(order@[a] == old_order[a] && order@[b] == old_order[b]);
                } else if b == p {
                    assert(order@[a] == old_order[a]);
                } else if a < p {
                    assert(order@[a] == old_order[a] && order@[b] == old_order[b - 1]);
                } else if a == p {
                    assert(order@[b] == old_order[b - 1]);
                } else {
                    assert(order@[a] == old_order[a - 1] && order@[b] == old_order[b - 1]);
                }
            }
            i = i + 1;
        }
        order
    }
}

/// Whether a file name is that of a replay: it ends with `.Gbx`.
pub fn is_replay_file(path: &str) -> (b: bool)
    ensures
        b == has_suffix(path@, ".Gbx"@),
{
    ends_with(path, ".Gbx")
}

/// Which screen the application shows.
#[derive(Debug, Clone)]
pub enum State {
    /// The credentials form; whether it was asked for, and the error that
    /// brought it back.
    Credentials(bool, Option<String>),
    Connecting,
    /// The autosave folder form; whether it was asked for, and the error
    /// that brought it back.
    ReplayFolder(bool, Option<String>),
    ListView,
    LogView,
    Uploading,
}

/// The credentials form is shown when it was asked for, after an error,
/// or while a credential is missing; otherwise the stored ones are used.
pub fn login_form_needed(forced: bool, error: &Option<String>, pref: &Pref) -> (b: bool)
    ensures
        b == (forced || error is Some || pref.username is None || pref.password is None),
{
    forced || error.is_some() || pref.username.is_none() || pref.password.is_none()
}

/// The folder form is shown when it was asked for, after an error, or
/// while no autosave folder is set; otherwise that folder is watched.
pub fn folder_form_needed(forced: bool, error: &Option<String>, pref: &Pref) -> (b: bool)
    ensures
        b == (forced || error is Some || pref.autosave_path is None),
{
    forced || error.is_some() || pref.autosave_path.is_none()
}

/// The screen and the log line after logging in: the folder form once
/// connected, the credentials form with an error otherwise.
pub fn after_connect(outcome: &Result<(), ClientError>) -> (r: (State, Log))
    ensures
        allowed_step(State::Connecting, r.0),
        r.1.kind == LogKind::Client,
        match outcome {
            Ok(()) => r.0 matches State::ReplayFolder(false, None)
                && r.1.value@ == "Connected to ManiaExchange"@,
            Err(e) => (r.0 matches State::Credentials(false, Some(m)) && m@ == "Error connecting to ManiaExchange"@)
                && exists|t: Seq<char>| is_message_of(e, t) && r.1.value@ == "Error connecting to ManiaExchange: "@ + t,
        },
{
    match outcome {
        Ok(()) => (
            State::ReplayFolder(false, None),
            Log { kind: LogKind::Client, value: String::from_str("Connected to ManiaExchange") },
        ),
        Err(e) => {
            let mut value = String::from_str("Error connecting to ManiaExchange: ");
            let m = e.message();
            value.append(m.as_str());
            (
                State::Credentials(false, Some(String::from_str("Error connecting to ManiaExchange"))),
                Log { kind: LogKind::Client, value },
            )
        },
    }
}

/// The log line for the upload of the replay on the map `name`: its new
/// rank, or why it was not uploaded.
pub fn upload_report(name: &str, outcome: &Result<UploadResponse, ClientError>) -> (l: Log)
    requires
        outcome matches Ok(r) ==> r.replay.position < usize::MAX,
    ensures
        l.kind == LogKind::Upload,
        match outcome {
            Ok(r) => l.value@ == "Replay on \""@ + name@ + "\" uploaded, new rank "@ + decimal(r.replay.position as nat + 1),
            Err(e) => exists|t: Seq<char>| is_message_of(e, t)
                && l.value@ == "Replay on \""@ + name@ + "\" not uploaded : "@ + t,
        },
{
    let mut value = String::from_str("Replay on \"");
    value.append(name);
    match outcome {
        Ok(r) => {
            value.append("\" uploaded, new rank ");
            let rank = r.position();
            push_decimal(&mut value, rank as u64);
        },
        Err(e) => {
            value.append("\" not uploaded : ");
            let m = e.message();
            value.append(m.as_str());
        },
    }
    Log { kind: LogKind::Upload, value }
}

/// The log line for a new replay: its map and its time.
pub fn record_log(h: &GbxHeader) -> (l: Log)
    ensures
        l.kind == LogKind::Record,
        l.value@ == "\""@ + h@.name + "\" : "@ + h@.time,
{
    let mut value = String::from_str("\"");
    value.append(h.name());
    value.append("\" : ");
    value.append(h.time());
    Log { kind: LogKind::Record, value }
}

/// The log line when a folder starts being watched.
pub fn watching_log(path: &str) -> (l: Log)
    ensures
        l.kind == LogKind::Watcher,
        l.value@ == "Watching "@ + path@ + " for new replays..."@,
{
    let mut value = String::from_str("Watching ");
    value.append(path);
    value.append(" for new replays...");
    Log { kind: LogKind::Watcher, value }
}

/// Where closing the window stands. Once closing waits for an upload, it
/// stays so: later close requests keep being cancelled.
#[derive(Debug, Clone, Copy, PartialEq, Eq, Structural)]
pub enum ClosingState {
    Open,
    /// Closing waits for the last replays to be uploaded.
    Uploading,
    Closing,
}

/// A request to close the window: while replays wait, they are uploaded
/// first and the close is cancelled; during that upload further requests
/// are cancelled too. The result is the new state and whether to cancel.
pub fn on_close_request(closing: ClosingState, replays_waiting: bool) -> (r: (ClosingState, bool))
    ensures
        closing == ClosingState::Open && replays_waiting ==> r == (ClosingState::Uploading, true),
        closing == ClosingState::Open && !replays_waiting ==> r == (ClosingState::Open, false),
        closing == ClosingState::Uploading ==> r == (ClosingState::Uploading, true),
        closing == ClosingState::Closing ==> r == (ClosingState::Closing, false),
{
    match closing {
        ClosingState::Open => if replays_waiting {
            (ClosingState::Uploading, true)
        } else {
            (ClosingState::Open, false)
        },
        ClosingState::Uploading => (ClosingState::Uploading, true),
        ClosingState::Closing => (ClosingState::Closing, false),
    }
}

/// What the user or a finished task asks of the screens.
#[derive(Debug, Clone, Copy, PartialEq, Eq, Structural)]
pub enum ScreenEvent {
    /// Credentials were submitted, or stored ones are used.
    CredentialsReady,
    /// The autosave folder was chosen, or a stored one is used.
    FolderReady,
    /// "Upload all" was asked for; whether replays wait.
    UploadRequested { replays_waiting: bool },
    /// The log screen was asked for.
    LogsRequested,
    /// Back from the log screen.
    BackRequested,
    /// The running upload ended.
    UploadFinished,
}

/// What the application is to start along with a screen change.
#[derive(Debug, Clone, Copy, PartialEq, Eq, Structural)]
pub enum ScreenAction {
    Nothing,
    /// Log in to ManiaExchange with the credentials.
    Connect,
    /// Watch the autosave folder for new replays.
    WatchFolder,
    /// Upload every waiting replay.
    StartUpload,
}

/// The screen after `event` in `state`, and what to start with it.
pub open spec fn screen_after(state: State, event: ScreenEvent) -> (State, ScreenAction) {
    match event {
        ScreenEvent::CredentialsReady => (State::Connecting, ScreenAction::Connect),
        ScreenEvent::FolderReady => (State::ListView, ScreenAction::WatchFolder),
        ScreenEvent::UploadRequested { replays_waiting } => if replays_waiting {
            (State::Uploading, ScreenAction::StartUpload)
        } else {
            (state, ScreenAction::Nothing)
        },
        ScreenEvent::LogsRequested => (State::LogView, ScreenAction::Nothing),
        ScreenEvent::BackRequested => (State::ListView, ScreenAction::Nothing),
        ScreenEvent::UploadFinished => (State::ListView, ScreenAction::Nothing),
    }
}

/// The events each screen raises: the credentials form submits
/// credentials; the folder form gives a folder, and the list it shows in
/// advance can ask for an upload; the list asks for an upload or the logs;
/// the log screen goes back; a running upload finishes. The connecting
/// screen raises none of these: its outcome goes through `after_connect`.
pub open spec fn admits(state: State, event: ScreenEvent) -> bool {
    match state {
        State::Credentials(_, _) => event == ScreenEvent::CredentialsReady,
        State::Connecting => false,
        State::ReplayFolder(_, _) => event == ScreenEvent::FolderReady || event is UploadRequested,
        State::ListView => event is UploadRequested || event == ScreenEvent::LogsRequested,
        State::LogView => event == ScreenEvent::BackRequested,
        State::Uploading => event == ScreenEvent::UploadFinished,
    }
}

/// The screen changes the uploader makes: credentials lead to connecting;
/// connecting leads to the folder form or back to the credentials form
/// with an error; the folder form leads to the list or an upload; the list
/// leads to an upload or the logs; the logs lead back to the list; an
/// upload leads back to the list. Staying on a screen is always allowed.
pub open spec fn allowed_step(from: State, to: State) -> bool {
    from == to || match from {
        State::Credentials(_, _) => to == State::Connecting,
        State::Connecting => to == State::ReplayFolder(false, None)
            || to matches State::Credentials(false, Some(_)),
        State::ReplayFolder(_, _) => to == State::ListView || to == State::Uploading,
        State::ListView => to == State::Uploading || to == State::LogView,
        State::LogView => to == State::ListView,
        State::Uploading => to == State::ListView,
    }
}

/// Every event a screen raises leads only to a screen change the uploader
/// makes.
pub proof fn lemma_screen_steps_allowed(state: State, event: ScreenEvent)
    requires
        admits(state, event),
    ensures
        allowed_step(state, screen_after(state, event).0),
{
}

/// An upload asked for when the window is to close, whatever the screen,
/// leads to the uploading screen or leaves the screen as it is.
pub proof fn lemma_upload_request_from_any_screen(state: State, replays_waiting: bool)
    ensures
        screen_after(state, ScreenEvent::UploadRequested { replays_waiting }).0 == State::Uploading
            || screen_after(state, ScreenEvent::UploadRequested { replays_waiting }).0 == state,
{
}

/// The screen after an event, and what to start with it: submitted
/// credentials start the login, a known folder is watched and the list
/// shown, "Upload all" starts the upload only while replays wait (and
/// leaves the screen otherwise), the log screen comes and goes, and a
/// finished upload returns to the list.
pub fn next_screen(state: State, event: ScreenEvent) -> (r: (State, ScreenAction))
    ensures
        r == screen_after(state, event),
        event == ScreenEvent::CredentialsReady ==> r.0 == State::Connecting && r.1 == ScreenAction::Connect,
        event == ScreenEvent::FolderReady ==> r.0 == State::ListView && r.1 == ScreenAction::WatchFolder,
        event == (ScreenEvent::UploadRequested { replays_waiting: true }) ==> r.0 == State::Uploading
            && r.1 == ScreenAction::StartUpload,
        event == (ScreenEvent::UploadRequested { replays_waiting: false }) ==> r.0 == state
            && r.1 == ScreenAction::Nothing,
        event == ScreenEvent::LogsRequested ==> r.0 == State::LogView && r.1 == ScreenAction::Nothing,
        event == ScreenEvent::BackRequested ==> r.0 == State::ListView && r.1 == ScreenAction::Nothing,
        event == ScreenEvent::UploadFinished ==> r.0 == State::ListView && r.1 == ScreenAction::Nothing,
{
    match event {
        ScreenEvent::CredentialsReady => (State::Connecting, ScreenAction::Connect),
        ScreenEvent::FolderReady => (State::ListView, ScreenAction::WatchFolder),
        ScreenEvent::UploadRequested { replays_waiting } => if replays_waiting {
            (State::Uploading, ScreenAction::StartUpload)
        } else {
            (state, ScreenAction::Nothing)
        },
        ScreenEvent::LogsRequested => (State::LogView, ScreenAction::Nothing),
        ScreenEvent::BackRequested => (State::ListView, ScreenAction::Nothing),
        ScreenEvent::UploadFinished => (State::ListView, ScreenAction::Nothing),
    }
}

} // verus!
