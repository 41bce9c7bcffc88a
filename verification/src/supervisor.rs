//! The process supervisor: tracks the one external synthesis-service
//! process as a small state machine. The adapters spawn, probe and
//! kill the real process and report outcomes; the supervisor decides
//! when to spawn, guards against duplicate starts, reconciles
//! liveness, and drives the periodic health-check recovery, logging
//! status events. Diagnostics helpers model the executable-resolution
//! rules.

use vstd::prelude::*;

verus! {

/// What the supervisor knows of the service process.
#[derive(Clone, Copy, PartialEq, Eq, Structural, Debug)]
pub enum ServiceState {
    /// No process is known to be running.
    Stopped,
    /// A spawn was requested and its outcome has not come back yet.
    Starting,
    /// A process handle is held.
    Running,
}

/// What a non-blocking liveness probe of the held process reported.
#[derive(Clone, Copy, PartialEq, Eq, Structural, Debug)]
pub enum ProbeOutcome {
    /// The process has not exited.
    StillRunning,
    /// The process has exited.
    Exited,
    /// The probe itself failed.
    ProbeError,
}

/// Status events the supervisor emits, best-effort.
#[derive(Clone, Copy, PartialEq, Eq, Structural, Debug)]
pub enum TtsEvent {
    /// A health-check recovery is about to respawn the service.
    Restarting,
    /// A health-check respawn succeeded.
    Running,
    /// A health-check respawn failed.
    RestartFailed,
}

/// What a start request asks of the adapters.
#[derive(Clone, Copy, PartialEq, Eq, Structural, Debug)]
pub enum StartAction {
    /// Spawn the service process and report the outcome.
    Spawn,
    /// A process is already present or being spawned: do nothing.
    AlreadyPresent,
}

/// What a health-check wake asks of the adapters.
#[derive(Clone, Copy, PartialEq, Eq, Structural, Debug)]
pub enum HealthAction {
    /// Respawn the service process and report the outcome.
    Restart,
    /// Nothing to do this wake.
    Idle,
}

/// The body of a synthesis request, as the command layer hands it in.
pub struct TtsSpeakRequest {
    pub text: String,
}

/// Python-environment diagnostics, assembled from adapter probes.
pub struct TtsDiagnostics {
    pub python_path: String,
    pub python_exists: bool,
    pub python_version: Option<String>,
    pub server_script_resolved: bool,
    pub server_script_exists: bool,
}

/// What a start request does to the state: only `Stopped` spawns;
/// a present or pending process deduplicates the request.
pub open spec fn start_transition(st: ServiceState) -> (ServiceState, StartAction) {
    if st is Stopped {
        (ServiceState::Starting, StartAction::Spawn)
    } else {
        (st, StartAction::AlreadyPresent)
    }
}

/// Whether a wake finds the service down: no process, or a held
/// process whose probe says it exited or could not be probed. A
/// pending spawn is not down.
pub open spec fn service_down(st: ServiceState, probe: Option<ProbeOutcome>) -> bool {
    match st {
        ServiceState::Stopped => true,
        ServiceState::Starting => false,
        ServiceState::Running => probe != Some(ProbeOutcome::StillRunning),
    }
}

/// What one health-check wake does: a down service is cleared and,
/// when the feature is enabled, a restart is attempted behind a
/// `Restarting` event; when disabled the wake only clears the handle.
pub open spec fn health_transition(
    st: ServiceState,
    probe: Option<ProbeOutcome>,
    enabled: bool,
) -> (ServiceState, HealthAction, Seq<TtsEvent>) {
    if service_down(st, probe) {
        if enabled {
            (ServiceState::Starting, HealthAction::Restart, seq![TtsEvent::Restarting])
        } else {
            (ServiceState::Stopped, HealthAction::Idle, Seq::empty())
        }
    } else {
        (st, HealthAction::Idle, Seq::empty())
    }
}

/// What a reported spawn outcome does: success holds the handle,
/// failure clears it; an announced attempt logs the matching event.
pub open spec fn spawn_transition(ok: bool, announce: bool) -> (ServiceState, Seq<TtsEvent>) {
    (
        if ok {
            ServiceState::Running
        } else {
            ServiceState::Stopped
        },
        if announce {
            seq![
                if ok {
                    TtsEvent::Running
                } else {
                    TtsEvent::RestartFailed
                },
            ]
        } else {
            Seq::empty()
        },
    )
}

/// The supervisor: the service-process state and the status-event
/// log the adapters drain.
pub struct TtsManager {
    pub state: ServiceState,
    pub events: Vec<TtsEvent>,
}

impl TtsManager {
    /// A fresh supervisor. When the feature is enabled the service is
    /// spawned right away, so the state starts at `Starting` and the
    /// adapters are told to spawn; the health-check loop is started
    /// either way.
    pub fn new(tts_enabled: bool) -> (r: (Self, bool))
        ensures
            r.0.events@.len() == 0,
            r.1 == tts_enabled,
            r.0.state == if tts_enabled {
                ServiceState::Starting
            } else {
                ServiceState::Stopped
            },
    {
        let state = if tts_enabled {
            ServiceState::Starting
        } else {
            ServiceState::Stopped
        };
        (TtsManager { state, events: Vec::new() }, tts_enabled)
    }

    /// A start request: spawns only from `Stopped`; while a process
    /// is present or a spawn is pending it is a no-op, which is the
    /// de-duplication guarantee against double-spawn.
    pub fn start_service(&mut self) -> (a: StartAction)
        ensures
            (final(self).state, a) == start_transition(old(self).state),
            final(self).events == old(self).events,
    {
        match self.state {
            ServiceState::Stopped => {
                self.state = ServiceState::Starting;
                StartAction::Spawn
            },
            _ => StartAction::AlreadyPresent,
        }
    }

    /// The adapters report how the requested spawn went. `announce`
    /// marks health-check recoveries, which log a status event;
    /// the initial start stays silent, as its failures are only
    /// logged.
    pub fn on_spawn_result(&mut self, ok: bool, announce: bool)
        requires
            old(self).state is Starting,
        ensures
            ({
                let (st2, ev) = spawn_transition(ok, announce);
                final(self).state == st2 && final(self).events@ == old(self).events@ + ev
            }),
    {
        if ok {
            self.state = ServiceState::Running;
        } else {
            self.state = ServiceState::Stopped;
        }
        if announce {
            let e = if ok {
                TtsEvent::Running
            } else {
                TtsEvent::RestartFailed
            };
            self.events.push(e);
            proof {
                assert(self.events@ =~= old(self).events@ + seq![e]);
            }
        } else {
            proof {
                assert(self.events@ =~= old(self).events@ + Seq::<TtsEvent>::empty());
            }
        }
    }

    /// The liveness snapshot behind the status query: the adapters
    /// probe the held process (exactly when one is held) and the
    /// supervisor reconciles, clearing the handle of an exited or
    /// unprobeable process. This is the one reconciliation point
    /// outside the health-check loop.
    pub fn is_running(&mut self, probe: Option<ProbeOutcome>) -> (r: bool)
        requires
            (probe is Some) <==> old(self).state is Running,
        ensures
            final(self).events == old(self).events,
            r == (old(self).state is Running && probe == Some(ProbeOutcome::StillRunning)),
            final(self).state == if old(self).state is Running && probe != Some(
                ProbeOutcome::StillRunning,
            ) {
                ServiceState::Stopped
            } else {
                old(self).state
            },
    {
        match self.state {
            ServiceState::Running => {
                match probe {
                    Some(ProbeOutcome::StillRunning) => true,
                    _ => {
                        self.state = ServiceState::Stopped;
                        false
                    },
                }
            },
            _ => false,
        }
    }

    /// One wake of the health-check loop: probes (via the adapters)
    /// and, if the service is down, clears the handle and — provided
    /// the feature is enabled — logs `Restarting` and asks for a
    /// respawn, whose outcome comes back through
    /// [`Self::on_spawn_result`] with `announce` set.
    pub fn health_wake(&mut self, probe: Option<ProbeOutcome>, enabled: bool) -> (a: HealthAction)
        requires
            (probe is Some) <==> old(self).state is Running,
        ensures
            ({
                let (st2, a2, ev) = health_transition(old(self).state, probe, enabled);
                final(self).state == st2 && a == a2 && final(self).events@ == old(self).events@
                    + ev
            }),
    {
        let down = match self.state {
            ServiceState::Stopped => true,
            ServiceState::Starting => false,
            ServiceState::Running => match probe {
                Some(ProbeOutcome::StillRunning) => false,
                _ => true,
            },
        };
        if down {
            if enabled {
                self.state = ServiceState::Starting;
                self.events.push(TtsEvent::Restarting);
                proof {
                    assert(self.events@ =~= old(self).events@ + seq![TtsEvent::Restarting]);
                }
                return HealthAction::Restart;
            }
            self.state = ServiceState::Stopped;
        }
        proof {
            assert(self.events@ =~= old(self).events@ + Seq::<TtsEvent>::empty());
        }
        HealthAction::Idle
    }

    /// Shutdown: forgets the handle from any state and tells the
    /// caller whether a held process should be killed.
    pub fn stop_service(&mut self) -> (had: bool)
        ensures
            final(self).state is Stopped,
            final(self).events == old(self).events,
            had == (old(self).state is Running),
    {
        let had = match self.state {
            ServiceState::Running => true,
            _ => false,
        };
        self.state = ServiceState::Stopped;
        had
    }
}

/// The index of the first existing candidate, as executable and
/// script resolution pick them: the first probe that reported
/// existence wins.
pub fn pick_first_existing(exists: &Vec<bool>) -> (r: Option<usize>)
    ensures
        r matches Some(i) ==> i < exists@.len() && exists@[i as int] && (forall|j: int|
            0 <= j < i ==> !exists@[j]),
        (r is None) <==> forall|j: int| 0 <= j < exists@.len() ==> !exists@[j],
{
    let n = exists.len();
    let mut i: usize = 0;
    while i < n
        invariant
            0 <= i <= n,
            n == exists@.len(),
            forall|j: int| 0 <= j < i ==> !exists@[j],
        decreases n - i,
    {
        if exists[i] {
            return Some(i);
        }
        i = i + 1;
    }
    None
}

/// The synthesis voice list: the selected model when it is
/// downloaded, else the system default.
pub fn select_voices(downloaded_model: Option<String>) -> (r: Vec<String>)
    ensures
        downloaded_model matches Some(m) ==> r.deep_view() =~= seq![m@],
        downloaded_model is None ==> r.deep_view() =~= seq!["system_default"@],
{
    let mut voices: Vec<String> = Vec::new();
    match downloaded_model {
        Some(m) => {
            voices.push(m);
        },
        None => {
            voices.push("system_default".to_owned());
        },
    }
    voices
}

} // verus!

verus! {

/// Requesting a start twice without an intervening stop or detected
/// exit spawns exactly one process: the first request from `Stopped`
/// spawns, and the second request sees the pending or running
/// process and does nothing, leaving the state as it was.
pub proof fn lemma_start_is_deduplicated(st: ServiceState)
    requires
        st is Stopped,
    ensures
        ({
            let (s1, a1) = start_transition(st);
            let (s2, a2) = start_transition(s1);
            &&& a1 == StartAction::Spawn
            &&& a2 == StartAction::AlreadyPresent
            &&& s2 == s1
        }),
{
}

/// Two consecutive start requests never both spawn, whatever state
/// the supervisor was in.
pub proof fn lemma_start_twice_single_spawn(st: ServiceState)
    ensures
        !(start_transition(st).1 == StartAction::Spawn && start_transition(
            start_transition(st).0,
        ).1 == StartAction::Spawn),
{
}

/// A process that exits between two health-check wakes: the next
/// wake clears the handle and attempts exactly one restart, emitting
/// `Restarting` and then, once the spawn outcome is in, `Running` on
/// success or the error event on failure.
pub proof fn lemma_health_check_restart_cycle(probe: ProbeOutcome, ok: bool)
    requires
        probe is Exited || probe is ProbeError,
    ensures
        ({
            let (st1, a1, ev1) = health_transition(ServiceState::Running, Some(probe), true);
            let (st2, ev2) = spawn_transition(ok, true);
            &&& st1 is Starting
            &&& a1 == HealthAction::Restart
            &&& ev1 + ev2 =~= seq![
                TtsEvent::Restarting,
                if ok {
                    TtsEvent::Running
                } else {
                    TtsEvent::RestartFailed
                },
            ]
            &&& (ok ==> st2 is Running)
            &&& (!ok ==> st2 is Stopped)
        }),
{
}

/// While the feature is disabled a wake that finds the service down
/// only clears the handle: no restart and no event, and the loop
/// keeps waking.
pub proof fn lemma_health_check_disabled_skips(st: ServiceState, probe: Option<ProbeOutcome>)
    requires
        service_down(st, probe),
    ensures
        ({
            let (st2, a2, ev) = health_transition(st, probe, false);
            st2 is Stopped && a2 == HealthAction::Idle && ev =~= Seq::<TtsEvent>::empty()
        }),
{
}

} // verus!
