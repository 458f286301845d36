//! A proxy session: where its log artifact lies and how the proxy is started.

use crate::exporter::{augmented_text, credentials_of, CredentialSet, export_session, filtered_text};
use crate::shell::{sync_profile, synced_text};
use crate::text::{append_str, chars_of, lines, string_of};
use crate::watcher::{is_ready, MAX_ATTEMPTS, POLL_INTERVAL_MS, Watcher, WatchStep};
use vstd::prelude::*;

verus! {

/// Where the log artifact of the session for `target` lies.
pub open spec fn artifact_path_of(target: Seq<char>) -> Seq<char> {
    "/tmp/tsh_proxy_"@ + target + ".log"@
}

/// Where the log artifact of the session for `target` lies.
pub fn artifact_path(target: &str) -> (path: String)
    ensures
        path@ == artifact_path_of(target@),
{
    let mut out = chars_of("/tmp/tsh_proxy_");
    append_str(&mut out, target);
    append_str(&mut out, ".log");
    string_of(&out)
}

/// Why a session did not come about.
#[derive(Debug, Clone, Copy, PartialEq, Eq, Structural)]
pub enum SessionError {
    /// No target was named.
    NoTarget,
    /// The proxy could not be started.
    LaunchFailure,
    /// The readiness marker did not show within the attempts.
    Timeout,
    /// The artifact was reported ready, but could then not be read or
    /// replaced.
    ArtifactMissing,
    /// The profile could not be read or written.
    ProfileIoFailure,
}

/// How far a session has come. The stages follow one another in this order;
/// a session that failed stays failed.
#[derive(Debug, Clone, Copy, PartialEq, Eq, Structural)]
pub enum Stage {
    /// The proxy is being started.
    Launching,
    /// The artifact is looked at until it is ready.
    Watching,
    /// The ready artifact is being read for the export.
    Exporting,
    /// The artifact is being replaced by its export lines.
    Replacing,
    /// The profile is being read for the sync.
    Syncing,
    /// The synced profile is being written.
    Rewriting,
    /// The session stands.
    Done,
    /// The session did not come about.
    Failed,
}

/// The place of a stage in the order of the stages.
pub open spec fn rank(stage: Stage) -> int {
    match stage {
        Stage::Launching => 0,
        Stage::Watching => 1,
        Stage::Exporting => 2,
        Stage::Replacing => 3,
        Stage::Syncing => 4,
        Stage::Rewriting => 5,
        Stage::Done => 6,
        Stage::Failed => 7,
    }
}

/// What came back from the work that the session asked for.
pub enum SessionEvent {
    /// The proxy runs, under this process id.
    Launched(u32),
    /// The proxy could not be started.
    LaunchFailed,
    /// The artifact was read; nothing where it could not be.
    ArtifactRead(Option<String>),
    /// The sleep is over.
    Slept,
    /// The artifact was replaced, or could not be.
    ArtifactWritten(bool),
    /// The profile was read; nothing where it could not be.
    ProfileRead(Option<String>),
    /// The profile was written, or could not be.
    ProfileWritten(bool),
}

/// The work that the session asks for next.
pub enum SessionAction {
    /// Read the artifact and hand back its content.
    ReadArtifact,
    /// Sleep for so many milliseconds.
    Sleep(u64),
    /// Replace the artifact by this content in one step, and take these
    /// credentials into the environment.
    WriteArtifact(String, CredentialSet),
    /// Read the profile and hand back its content.
    ReadProfile,
    /// Write this content as the profile.
    WriteProfile(String),
    /// Nothing is left to do: the session stands.
    Finish,
    /// Give up and report this error. The proxy, if it runs, is left
    /// running.
    Fail(SessionError),
    /// The event does not belong to the stage: nothing changed.
    Rejected,
}

/// The session on its way from launch to sync.
pub struct ProxySession {
    pub target: String,
    pub role: String,
    pub artifact_path: String,
    pub created_at: u64,
    pub pid: Option<u32>,
    pub stage: Stage,
    pub attempts: u32,
    pub error: Option<SessionError>,
}

/// The arguments that start the proxy for `target`.
pub open spec fn proxy_args_of(target: Seq<char>) -> Seq<Seq<char>> {
    seq!["proxy"@, "aws"@, "--app"@, target]
}

/// The stage after an event, for a session at `stage` whose watcher has
/// seen `attempts` fruitless looks.
pub open spec fn stage_after(stage: Stage, attempts: nat, event: SessionEvent) -> Stage {
    match (stage, event) {
        (Stage::Launching, SessionEvent::Launched(_)) => Stage::Watching,
        (Stage::Launching, SessionEvent::LaunchFailed) => Stage::Failed,
        (Stage::Watching, SessionEvent::ArtifactRead(content)) => if attempts >= MAX_ATTEMPTS {
            Stage::Watching
        } else if is_ready(crate::teleport::opt_view(content)) {
            Stage::Exporting
        } else {
            Stage::Watching
        },
        (Stage::Watching, SessionEvent::Slept) => if attempts >= MAX_ATTEMPTS {
            Stage::Failed
        } else {
            Stage::Watching
        },
        (Stage::Exporting, SessionEvent::ArtifactRead(content)) => if content is Some {
            Stage::Replacing
        } else {
            Stage::Failed
        },
        (Stage::Replacing, SessionEvent::ArtifactWritten(done)) => if done {
            Stage::Syncing
        } else {
            Stage::Failed
        },
        (Stage::Syncing, SessionEvent::ProfileRead(content)) => if content is Some {
            Stage::Rewriting
        } else {
            Stage::Failed
        },
        (Stage::Rewriting, SessionEvent::ProfileWritten(done)) => if done {
            Stage::Done
        } else {
            Stage::Failed
        },
        _ => stage,
    }
}

/// The error of a session that fails at `stage`.
pub open spec fn error_at(stage: Stage) -> SessionError {
    match stage {
        Stage::Launching => SessionError::LaunchFailure,
        Stage::Watching => SessionError::Timeout,
        Stage::Exporting => SessionError::ArtifactMissing,
        Stage::Replacing => SessionError::ArtifactMissing,
        _ => SessionError::ProfileIoFailure,
    }
}

/// Whether an event belongs to a stage.
pub open spec fn belongs(stage: Stage, attempts: nat, event: SessionEvent) -> bool {
    match (stage, event) {
        (Stage::Launching, SessionEvent::Launched(_)) => true,
        (Stage::Launching, SessionEvent::LaunchFailed) => true,
        (Stage::Watching, SessionEvent::ArtifactRead(_)) => attempts < MAX_ATTEMPTS,
        (Stage::Watching, SessionEvent::Slept) => true,
        (Stage::Exporting, SessionEvent::ArtifactRead(_)) => true,
        (Stage::Replacing, SessionEvent::ArtifactWritten(_)) => true,
        (Stage::Syncing, SessionEvent::ProfileRead(_)) => true,
        (Stage::Rewriting, SessionEvent::ProfileWritten(_)) => true,
        _ => false,
    }
}

/// What an action asks for, with its texts as sequences of characters.
pub enum ActionView {
    ReadArtifact,
    Sleep(u64),
    WriteArtifact(Seq<char>, Seq<(Seq<char>, Seq<char>)>),
    ReadProfile,
    WriteProfile(Seq<char>),
    Finish,
    Fail(SessionError),
    Rejected,
}

impl View for SessionAction {
    type V = ActionView;

    /// What the action asks for.
    open spec fn view(&self) -> ActionView {
        match *self {
            SessionAction::ReadArtifact => ActionView::ReadArtifact,
            SessionAction::Sleep(millis) => ActionView::Sleep(millis),
            SessionAction::WriteArtifact(content, credentials) => ActionView::WriteArtifact(
                content@,
                credentials@,
            ),
            SessionAction::ReadProfile => ActionView::ReadProfile,
            SessionAction::WriteProfile(content) => ActionView::WriteProfile(content@),
            SessionAction::Finish => ActionView::Finish,
            SessionAction::Fail(error) => ActionView::Fail(error),
            SessionAction::Rejected => ActionView::Rejected,
        }
    }
}

/// The action that answers an event: a rejection where the event does not
/// belong to the stage, the failure of the stage where the event is bad
/// news, and else the work of the stage that comes next.
pub open spec fn action_after(session: ProxySession, event: SessionEvent) -> ActionView {
    let attempts = session.attempts as nat;
    if !belongs(session.stage, attempts, event) {
        ActionView::Rejected
    } else if stage_after(session.stage, attempts, event) == Stage::Failed {
        ActionView::Fail(error_at(session.stage))
    } else {
        match (session.stage, event) {
            (Stage::Launching, _) => ActionView::ReadArtifact,
            (Stage::Watching, SessionEvent::ArtifactRead(content)) => if is_ready(
                crate::teleport::opt_view(content),
            ) {
                ActionView::ReadArtifact
            } else {
                ActionView::Sleep(POLL_INTERVAL_MS)
            },
            (Stage::Watching, _) => ActionView::ReadArtifact,
            (Stage::Exporting, SessionEvent::ArtifactRead(Some(content))) => {
                let artifact = augmented_text(
                    filtered_text(content@),
                    session.target@,
                    session.role@,
                );
                ActionView::WriteArtifact(artifact, credentials_of(lines(artifact)))
            },
            (Stage::Replacing, _) => ActionView::ReadProfile,
            (Stage::Syncing, SessionEvent::ProfileRead(Some(content))) => ActionView::WriteProfile(
                synced_text(content@, session.artifact_path@),
            ),
            (Stage::Rewriting, _) => ActionView::Finish,
            _ => ActionView::Rejected,
        }
    }
}

/// The fruitless looks after an event: one more after a look, while the
/// session watches, that did not find the artifact ready.
pub open spec fn attempts_after(stage: Stage, attempts: nat, event: SessionEvent) -> nat {
    if stage == Stage::Watching && attempts < MAX_ATTEMPTS && event is ArtifactRead && !is_ready(
        crate::teleport::opt_view(event->ArtifactRead_0),
    ) {
        attempts + 1
    } else {
        attempts
    }
}

/// The process id of the proxy after an event: that of the launch, once
/// the proxy was started.
pub open spec fn pid_after(session: ProxySession, event: SessionEvent) -> Option<u32> {
    if session.stage == Stage::Launching && event is Launched {
        Some(event->Launched_0)
    } else {
        session.pid
    }
}

/// The error that the session holds after an event: that of the stage at
/// which it failed.
pub open spec fn error_after(session: ProxySession, event: SessionEvent) -> Option<SessionError> {
    if session.stage != Stage::Failed && stage_after(
        session.stage,
        session.attempts as nat,
        event,
    ) == Stage::Failed {
        Some(error_at(session.stage))
    } else {
        session.error
    }
}

/// The arguments that start the proxy for `target`.
pub fn proxy_args(target: &str) -> (args: Vec<String>)
    ensures
        crate::text::string_views(args@) == proxy_args_of(target@),
{
    let mut args: Vec<String> = Vec::new();
    args.push(String::from_str("proxy"));
    args.push(String::from_str("aws"));
    args.push(String::from_str("--app"));
    args.push(String::from_str(target));
    assert(crate::text::string_views(args@) =~= proxy_args_of(target@));
    args
}

impl ProxySession {
    /// A session for `target` under `role`, made at `now`, about to start
    /// its proxy. A session needs a target.
    pub fn begin(target: &str, role: &str, now: u64) -> (made: Result<ProxySession, SessionError>)
        ensures
            match made {
                Ok(s) => target@.len() > 0 && s.target@ == target@ && s.role@ == role@
                    && s.artifact_path@ == artifact_path_of(target@) && s.created_at == now
                    && s.pid is None && s.stage == Stage::Launching && s.attempts == 0 && s.error
                    is None,
                Err(e) => target@.len() == 0 && e == SessionError::NoTarget,
            },
    {
        if chars_of(target).len() == 0 {
            return Err(SessionError::NoTarget);
        }
        Ok(
            ProxySession {
                target: String::from_str(target),
                role: String::from_str(role),
                artifact_path: artifact_path(target),
                created_at: now,
                pid: None,
                stage: Stage::Launching,
                attempts: 0,
                error: None,
            },
        )
    }

    /// Takes in what came back from the work asked for last, and says what
    /// to do next. The stages are gone through strictly in order: an event
    /// that does not belong to the stage is rejected and changes nothing.
    pub fn advance(&mut self, event: SessionEvent) -> (action: SessionAction)
        ensures
            action@ == action_after(*old(self), event),
            final(self).stage == stage_after(old(self).stage, old(self).attempts as nat, event),
            final(self).attempts == attempts_after(
                old(self).stage,
                old(self).attempts as nat,
                event,
            ),
            final(self).pid == pid_after(*old(self), event),
            final(self).error == error_after(*old(self), event),
            final(self).target == old(self).target,
            final(self).role == old(self).role,
            final(self).artifact_path == old(self).artifact_path,
            final(self).created_at == old(self).created_at,
    {
        match self.stage {
            Stage::Launching => match event {
                SessionEvent::Launched(pid) => {
                    self.pid = Some(pid);
                    self.stage = Stage::Watching;
                    SessionAction::ReadArtifact
                },
                SessionEvent::LaunchFailed => self.fail(SessionError::LaunchFailure),
                _ => SessionAction::Rejected,
            },
            Stage::Watching => match event {
                SessionEvent::ArtifactRead(content) => {
                    if self.attempts >= MAX_ATTEMPTS {
                        return SessionAction::Rejected;
                    }
                    let mut watcher = Watcher { attempts: self.attempts };
                    let step = match &content {
                        Some(text) => watcher.observe(Some(text.as_str())),
                        None => watcher.observe(None),
                    };
                    self.attempts = watcher.attempts;
                    match step {
                        WatchStep::Ready => {
                            self.stage = Stage::Exporting;
                            SessionAction::ReadArtifact
                        },
                        _ => SessionAction::Sleep(POLL_INTERVAL_MS),
                    }
                },
                SessionEvent::Slept => {
                    if self.attempts >= MAX_ATTEMPTS {
                        self.fail(SessionError::Timeout)
                    } else {
                        SessionAction::ReadArtifact
                    }
                },
                _ => SessionAction::Rejected,
            },
            Stage::Exporting => match event {
                SessionEvent::ArtifactRead(Some(content)) => {
                    let outcome = export_session(
                        content.as_str(),
                        self.target.as_str(),
                        self.role.as_str(),
                    );
                    self.stage = Stage::Replacing;
                    SessionAction::WriteArtifact(outcome.artifact, outcome.credentials)
                },
                SessionEvent::ArtifactRead(None) => self.fail(SessionError::ArtifactMissing),
                _ => SessionAction::Rejected,
            },
            Stage::Replacing => match event {
                SessionEvent::ArtifactWritten(true) => {
                    self.stage = Stage::Syncing;
                    SessionAction::ReadProfile
                },
                SessionEvent::ArtifactWritten(false) => self.fail(SessionError::ArtifactMissing),
                _ => SessionAction::Rejected,
            },
            Stage::Syncing => match event {
                SessionEvent::ProfileRead(Some(content)) => {
                    let synced = sync_profile(content.as_str(), self.artifact_path.as_str());
                    self.stage = Stage::Rewriting;
                    SessionAction::WriteProfile(synced)
                },
                SessionEvent::ProfileRead(None) => self.fail(SessionError::ProfileIoFailure),
                _ => SessionAction::Rejected,
            },
            Stage::Rewriting => match event {
                SessionEvent::ProfileWritten(true) => {
                    self.stage = Stage::Done;
                    SessionAction::Finish
                },
                SessionEvent::ProfileWritten(false) => self.fail(SessionError::ProfileIoFailure),
                _ => SessionAction::Rejected,
            },
            Stage::Done => SessionAction::Rejected,
            Stage::Failed => SessionAction::Rejected,
        }
    }

    /// Marks the session as failed with `error`.
    fn fail(&mut self, error: SessionError) -> (action: SessionAction)
        ensures
            final(self).stage == Stage::Failed,
            final(self).error == Some(error),
            action == SessionAction::Fail(error),
            final(self).target == old(self).target,
            final(self).role == old(self).role,
            final(self).artifact_path == old(self).artifact_path,
            final(self).created_at == old(self).created_at,
            final(self).pid == old(self).pid,
            final(self).attempts == old(self).attempts,
    {
        self.stage = Stage::Failed;
        self.error = Some(error);
        SessionAction::Fail(error)
    }
}

/// No event takes a session back to an earlier stage or past the next one:
/// a session moves to the stage that follows its own, stays where it is, or
/// fails; and one that stands or has failed stays so.
pub proof fn law_stages_in_order(stage: Stage, attempts: nat, event: SessionEvent)
    ensures
        stage_after(stage, attempts, event) == stage || rank(stage_after(stage, attempts, event))
            == rank(stage) + 1 || stage_after(stage, attempts, event) == Stage::Failed,
        stage == Stage::Done ==> stage_after(stage, attempts, event) == Stage::Done,
        stage == Stage::Failed ==> stage_after(stage, attempts, event) == Stage::Failed,
{
}

} // verus!
