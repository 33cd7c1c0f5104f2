//! Drags out of the window: one at a time, from the gesture to its end.

use std::collections::VecDeque;
use vstd::prelude::*;

use crate::path;
use crate::path::FsPath;

verus! {

/// What came of asking for a drag.
#[derive(Clone, Copy, Debug, PartialEq, Eq, Structural)]
pub enum BeginExternalDragOutcome {
    Armed,
    AlreadyArmed,
    AlreadyActive,
    RecoveredStalePending,
    RecoveredStaleActive,
}

/// Why a drag was not begun.
#[derive(Debug, PartialEq, Eq)]
pub enum BeginExternalDragError {
    UnsupportedPlatform,
    EmptyRequest,
    MissingPaths,
    HookInstall(String),
}

impl BeginExternalDragError {
    /// What is reported of the error.
    pub open spec fn text(self) -> Seq<char> {
        match self {
            BeginExternalDragError::UnsupportedPlatform =>
                "native external drag is only available on macOS"@,
            BeginExternalDragError::EmptyRequest => "cannot start an empty drag"@,
            BeginExternalDragError::MissingPaths => "none of the dragged paths still exist"@,
            BeginExternalDragError::HookInstall(e) => e@,
        }
    }

    /// What is reported of the error.
    pub fn message(&self) -> (r: String)
        ensures
            r@ == self.text(),
    {
        match self {
            BeginExternalDragError::UnsupportedPlatform =>
                "native external drag is only available on macOS".to_owned(),
            BeginExternalDragError::EmptyRequest => "cannot start an empty drag".to_owned(),
            BeginExternalDragError::MissingPaths =>
                "none of the dragged paths still exist".to_owned(),
            BeginExternalDragError::HookInstall(e) => e.clone(),
        }
    }
}

/// The operation of a drag that came to nothing.
pub const OPERATION_NONE: usize = 0;

/// The operation of a drag that copied.
pub const OPERATION_COPY: usize = 1;

/// A drag that was asked for. The gesture that asked for it has a number of its own; the time is
/// when it entered its state, in nanoseconds.
#[derive(Debug)]
pub struct DragRequest {
    pub gesture_id: u64,
    pub paths: Vec<FsPath>,
    pub entered_at: u64,
}

/// Where a drag is.
#[derive(Debug)]
pub enum NativeDragState {
    Idle,
    /// Asked for; it starts with the next motion of the mouse.
    Pending(DragRequest),
    /// Being started.
    Starting(DragRequest),
    /// Under way as a session of the system.
    Active { request: DragRequest, session_id: usize },
}

/// A drag that has ended, and how.
#[derive(Debug)]
pub struct EndedDrag {
    pub operation: usize,
    pub paths: Vec<FsPath>,
}

/// Keeps track of the drag and of those that have ended.
#[derive(Debug)]
pub struct NativeDragCoordinator {
    pub state: NativeDragState,
    pub ended: VecDeque<EndedDrag>,
}

/// A drag that was asked for, by its parts.
pub struct RequestView {
    pub gesture_id: u64,
    pub paths: Seq<Seq<u8>>,
    pub entered_at: u64,
}

/// Where a drag is.
pub enum DragStage {
    Idle,
    Pending(RequestView),
    Starting(RequestView),
    Active(RequestView, usize),
}

/// The drag and those that have ended.
pub struct DragView {
    pub stage: DragStage,
    pub ended: Seq<(usize, Seq<Seq<u8>>)>,
}

impl View for DragRequest {
    type V = RequestView;

    open spec fn view(&self) -> RequestView {
        RequestView {
            gesture_id: self.gesture_id,
            paths: path::path_views(self.paths@),
            entered_at: self.entered_at,
        }
    }
}

impl View for NativeDragState {
    type V = DragStage;

    open spec fn view(&self) -> DragStage {
        match *self {
            NativeDragState::Idle => DragStage::Idle,
            NativeDragState::Pending(r) => DragStage::Pending(r@),
            NativeDragState::Starting(r) => DragStage::Starting(r@),
            NativeDragState::Active { request, session_id } => DragStage::Active(
                request@,
                session_id,
            ),
        }
    }
}

impl View for NativeDragCoordinator {
    type V = DragView;

    open spec fn view(&self) -> DragView {
        DragView {
            stage: self.state@,
            ended: self.ended@.map_values(
                |e: EndedDrag| (e.operation, path::path_views(e.paths@)),
            ),
        }
    }
}

/// What comes of asking for a drag in each stage. A drag that is being started is never replaced:
/// the system may be creating its session already.
pub open spec fn arm_outcome(stage: DragStage, gesture_id: u64) -> BeginExternalDragOutcome {
    match stage {
        DragStage::Idle => BeginExternalDragOutcome::Armed,
        DragStage::Pending(old) => if old.gesture_id == gesture_id {
            BeginExternalDragOutcome::AlreadyArmed
        } else {
            BeginExternalDragOutcome::RecoveredStalePending
        },
        DragStage::Starting(_) => BeginExternalDragOutcome::AlreadyActive,
        DragStage::Active(old, _) => if old.gesture_id == gesture_id {
            BeginExternalDragOutcome::AlreadyActive
        } else {
            BeginExternalDragOutcome::RecoveredStaleActive
        },
    }
}

/// What is held once a drag has been asked for. A drag under way from another gesture has been
/// lost; it counts as ended with nothing done.
pub open spec fn armed(v: DragView, request: RequestView) -> DragView {
    match arm_outcome(v.stage, request.gesture_id) {
        BeginExternalDragOutcome::AlreadyArmed => v,
        BeginExternalDragOutcome::AlreadyActive => v,
        BeginExternalDragOutcome::RecoveredStaleActive => DragView {
            stage: DragStage::Pending(request),
            ended: v.ended.push((OPERATION_NONE, v.stage->Active_0.paths)),
        },
        _ => DragView { stage: DragStage::Pending(request), ..v },
    }
}

/// What is held once the pending drag is being started.
pub open spec fn started(v: DragView) -> DragView {
    match v.stage {
        DragStage::Pending(r) => DragView { stage: DragStage::Starting(r), ..v },
        _ => v,
    }
}

/// Whether a drag of this gesture is being started.
pub open spec fn is_starting(v: DragView, gesture_id: u64) -> bool {
    v.stage is Starting && v.stage->Starting_0.gesture_id == gesture_id
}

/// Whether this session is under way.
pub open spec fn is_session(v: DragView, session_id: usize) -> bool {
    v.stage is Active && v.stage->Active_1 == session_id
}

/// What is held once the system has made a session of the drag.
pub open spec fn activated(v: DragView, gesture_id: u64, session_id: usize, now: u64) -> DragView {
    if is_starting(v, gesture_id) {
        DragView {
            stage: DragStage::Active(
                RequestView { entered_at: now, ..v.stage->Starting_0 },
                session_id,
            ),
            ..v
        }
    } else {
        v
    }
}

/// What is held once starting the drag has failed.
pub open spec fn start_failed(v: DragView, gesture_id: u64) -> DragView {
    if is_starting(v, gesture_id) {
        DragView {
            stage: DragStage::Idle,
            ended: v.ended.push((OPERATION_NONE, v.stage->Starting_0.paths)),
        }
    } else {
        v
    }
}

/// What is held once a session has ended.
pub open spec fn finished(v: DragView, session_id: usize, operation: usize) -> DragView {
    if is_session(v, session_id) {
        DragView {
            stage: DragStage::Idle,
            ended: v.ended.push((operation, v.stage->Active_0.paths)),
        }
    } else {
        v
    }
}

/// What is held once the pointer has been released before the drag was started.
pub open spec fn cancelled(v: DragView) -> DragView {
    if v.stage is Pending {
        DragView { stage: DragStage::Idle, ..v }
    } else {
        v
    }
}

/// Whether the system has, or may have, a session.
pub open spec fn in_session(v: DragView) -> bool {
    v.stage is Starting || v.stage is Active
}

impl Default for NativeDragCoordinator {
    fn default() -> (r: NativeDragCoordinator)
        ensures
            r@.stage is Idle,
            r@.ended.len() == 0,
    {
        NativeDragCoordinator { state: NativeDragState::Idle, ended: VecDeque::new() }
    }
}

/// A copy of a request.
fn copy_request(request: &DragRequest) -> (r: DragRequest)
    ensures
        r@ == request@,
{
    DragRequest {
        gesture_id: request.gesture_id,
        paths: crate::path_list::copy_paths(&request.paths),
        entered_at: request.entered_at,
    }
}

impl NativeDragCoordinator {
    /// Notes that a drag has ended.
    fn push_ended(&mut self, operation: usize, paths: Vec<FsPath>)
        ensures
            final(self)@ == (DragView {
                ended: old(self)@.ended.push((operation, path::path_views(paths@))),
                ..old(self)@
            }),
            final(self).state == old(self).state,
    {
        let ghost before = self@.ended;
        let ghost v = (operation, path::path_views(paths@));
        self.ended.push_back(EndedDrag { operation, paths });
        assert(self@.ended =~= before.push(v));
    }

    /// Asks for a drag.
    pub fn arm(&mut self, gesture_id: u64, paths: Vec<FsPath>, now: u64) -> (r:
        BeginExternalDragOutcome)
        ensures
            r == arm_outcome(old(self)@.stage, gesture_id),
            final(self)@ == armed(
                old(self)@,
                (RequestView { gesture_id, paths: path::path_views(paths@), entered_at: now }),
            ),
    {
        let request = DragRequest { gesture_id, paths, entered_at: now };
        let mut previous = NativeDragState::Idle;
        std::mem::swap(&mut previous, &mut self.state);
        match previous {
            NativeDragState::Idle => {
                self.state = NativeDragState::Pending(request);
                BeginExternalDragOutcome::Armed
            },
            NativeDragState::Pending(old_request) => {
                if old_request.gesture_id == gesture_id {
                    self.state = NativeDragState::Pending(old_request);
                    BeginExternalDragOutcome::AlreadyArmed
                } else {
                    self.state = NativeDragState::Pending(request);
                    BeginExternalDragOutcome::RecoveredStalePending
                }
            },
            NativeDragState::Starting(old_request) => {
                self.state = NativeDragState::Starting(old_request);
                BeginExternalDragOutcome::AlreadyActive
            },
            NativeDragState::Active { request: old_request, session_id } => {
                if old_request.gesture_id == gesture_id {
                    self.state = NativeDragState::Active { request: old_request, session_id };
                    BeginExternalDragOutcome::AlreadyActive
                } else {
                    self.push_ended(OPERATION_NONE, old_request.paths);
                    self.state = NativeDragState::Pending(request);
                    BeginExternalDragOutcome::RecoveredStaleActive
                }
            },
        }
    }

    /// Takes the pending drag to start it.
    pub fn take_pending_for_start(&mut self) -> (r: Option<DragRequest>)
        ensures
            final(self)@ == started(old(self)@),
            match r {
                Some(request) => old(self)@.stage == DragStage::Pending(request@),
                None => !(old(self)@.stage is Pending),
            },
    {
        let mut previous = NativeDragState::Idle;
        std::mem::swap(&mut previous, &mut self.state);
        match previous {
            NativeDragState::Pending(request) => {
                let copy = copy_request(&request);
                self.state = NativeDragState::Starting(request);
                Some(copy)
            },
            other => {
                self.state = other;
                None
            },
        }
    }

    /// Notes that the system has made a session of the drag.
    pub fn mark_active(&mut self, gesture_id: u64, session_id: usize, now: u64) -> (r: bool)
        ensures
            r == is_starting(old(self)@, gesture_id),
            final(self)@ == activated(old(self)@, gesture_id, session_id, now),
    {
        let mut previous = NativeDragState::Idle;
        std::mem::swap(&mut previous, &mut self.state);
        match previous {
            NativeDragState::Starting(mut request) => {
                if request.gesture_id == gesture_id {
                    request.entered_at = now;
                    self.state = NativeDragState::Active { request, session_id };
                    true
                } else {
                    self.state = NativeDragState::Starting(request);
                    false
                }
            },
            other => {
                self.state = other;
                false
            },
        }
    }

    /// Notes that starting the drag has failed.
    pub fn fail_start(&mut self, gesture_id: u64)
        ensures
            final(self)@ == start_failed(old(self)@, gesture_id),
    {
        let mut previous = NativeDragState::Idle;
        std::mem::swap(&mut previous, &mut self.state);
        match previous {
            NativeDragState::Starting(request) => {
                if request.gesture_id == gesture_id {
                    self.push_ended(OPERATION_NONE, request.paths);
                } else {
                    self.state = NativeDragState::Starting(request);
                }
            },
            other => {
                self.state = other;
            },
        }
    }

    /// Notes that a session has ended. Says whether it was the one under way.
    pub fn finish_session(&mut self, session_id: usize, operation: usize) -> (r: bool)
        ensures
            r == is_session(old(self)@, session_id),
            final(self)@ == finished(old(self)@, session_id, operation),
    {
        let mut previous = NativeDragState::Idle;
        std::mem::swap(&mut previous, &mut self.state);
        match previous {
            NativeDragState::Active { request, session_id: active_session } => {
                if active_session == session_id {
                    self.push_ended(operation, request.paths);
                    true
                } else {
                    self.state = NativeDragState::Active { request, session_id: active_session };
                    false
                }
            },
            other => {
                self.state = other;
                false
            },
        }
    }

    /// Cancels a drag that has not been started. Says whether there was one.
    pub fn cancel_pending(&mut self) -> (r: bool)
        ensures
            r == (old(self)@.stage is Pending),
            final(self)@ == cancelled(old(self)@),
    {
        let mut previous = NativeDragState::Idle;
        std::mem::swap(&mut previous, &mut self.state);
        match previous {
            NativeDragState::Pending(_) => true,
            other => {
                self.state = other;
                false
            },
        }
    }

    /// Whether the system has, or may have, a session.
    pub fn is_active(&self) -> (r: bool)
        ensures
            r == in_session(self@),
    {
        match &self.state {
            NativeDragState::Starting(_) => true,
            NativeDragState::Active { .. } => true,
            _ => false,
        }
    }

    /// The drag that ended first and has not been taken yet.
    pub fn take_ended(&mut self) -> (r: Option<EndedDrag>)
        ensures
            final(self)@.stage == old(self)@.stage,
            match r {
                Some(e) => {
                    &&& old(self)@.ended.len() > 0
                    &&& old(self)@.ended[0] == (e.operation, path::path_views(e.paths@))
                    &&& final(self)@.ended == old(self)@.ended.skip(1)
                },
                None => old(self)@.ended.len() == 0 && final(self)@.ended == old(self)@.ended,
            },
    {
        let ghost before = self.ended@;
        let ghost views = self@.ended;
        let r = self.ended.pop_front();
        proof {
            if before.len() > 0 {
                assert(views[0] == (before[0].operation, path::path_views(before[0].paths@)));
                assert(self@.ended =~= views.skip(1));
            }
        }
        r
    }
}

/// The paths of a request that still exist, and why there is nothing to drag where none do.
pub fn existing_paths(paths: &Vec<FsPath>, exists: &Vec<bool>) -> (r: Result<
    Vec<FsPath>,
    BeginExternalDragError,
>)
    requires
        exists@.len() == paths@.len(),
    ensures
        match r {
            Ok(kept) => path::path_views(kept@) == kept_paths(
                path::path_views(paths@),
                exists@,
            ) && kept@.len() > 0,
            Err(BeginExternalDragError::EmptyRequest) => paths@.len() == 0,
            Err(BeginExternalDragError::MissingPaths) => paths@.len() > 0 && kept_paths(
                path::path_views(paths@),
                exists@,
            ).len() == 0,
            Err(_) => false,
        },
{
    if paths.len() == 0 {
        return Err(BeginExternalDragError::EmptyRequest);
    }
    let ghost all = path::path_views(paths@);
    let mut out: Vec<FsPath> = Vec::new();
    let mut i: usize = 0;
    assert(path::path_views(out@) =~= kept_paths(all.take(0), exists@.take(0)));
    while i < paths.len()
        invariant
            i <= paths@.len() == exists@.len(),
            all == path::path_views(paths@),
            path::path_views(out@) == kept_paths(all.take(i as int), exists@.take(i as int)),
        decreases paths@.len() - i,
    {
        proof {
            assert(all.take(i + 1).drop_last() =~= all.take(i as int));
            assert(exists@.take(i + 1).drop_last() =~= exists@.take(i as int));
            assert(all.take(i + 1).last() == paths@[i as int]@);
        }
        if exists[i] {
            let ghost before = path::path_views(out@);
            let p = paths[i].clone();
            let ghost v = p@;
            out.push(p);
            assert(path::path_views(out@) =~= before.push(v));
        }
        i += 1;
    }
    proof {
        assert(all.take(i as int) =~= all);
        assert(exists@.take(i as int) =~= exists@);
        assert(path::path_views(out@).len() == out@.len());
    }
    if out.len() == 0 {
        return Err(BeginExternalDragError::MissingPaths);
    }
    Ok(out)
}

/// The paths that are flagged, in their order.
pub open spec fn kept_paths(paths: Seq<Seq<u8>>, flags: Seq<bool>) -> Seq<Seq<u8>>
    decreases paths.len(),
{
    if paths.len() == 0 || flags.len() != paths.len() {
        Seq::empty()
    } else {
        let rest = kept_paths(paths.drop_last(), flags.drop_last());
        if flags.last() {
            rest.push(paths.last())
        } else {
            rest
        }
    }
}

/// A session ends once: its end is noted, and telling it again changes nothing.
pub proof fn session_ends_once(v: DragView, session_id: usize, operation: usize, again: usize)
    requires
        is_session(v, session_id),
    ensures
        finished(v, session_id, operation).ended.len() == v.ended.len() + 1,
        finished(v, session_id, operation).stage is Idle,
        finished(finished(v, session_id, operation), session_id, again) == finished(
            v,
            session_id,
            operation,
        ),
{
}

/// A late end of a session that is not under way any more changes nothing, whatever has begun
/// since.
pub proof fn late_end_is_ignored(v: DragView, session_id: usize, operation: usize)
    requires
        !is_session(v, session_id),
    ensures
        finished(v, session_id, operation) == v,
{
}

/// Asking for the same drag again changes nothing.
pub proof fn arming_again_changes_nothing(v: DragView, request: RequestView, again: RequestView)
    requires
        again.gesture_id == request.gesture_id,
    ensures
        armed(armed(v, request), again) == armed(v, request),
{
}

/// Releasing the pointer cancels a drag only while it is pending, and never ends one.
pub proof fn release_cancels_only_pending(v: DragView)
    ensures
        cancelled(v).ended == v.ended,
        !(v.stage is Pending) ==> cancelled(v) == v,
        in_session(cancelled(v)) == in_session(v),
{
}

/// A drag that is being started is not replaced by another gesture.
pub proof fn starting_drag_is_not_replaced(v: DragView, request: RequestView)
    requires
        v.stage is Starting,
    ensures
        armed(v, request) == v,
        arm_outcome(v.stage, request.gesture_id) == BeginExternalDragOutcome::AlreadyActive,
{
}

/// Every drag that goes from its request through a session to its end is reported with the paths
/// that it was asked for with and the operation that the system told.
pub proof fn completed_drag_is_reported(
    v: DragView,
    request: RequestView,
    session_id: usize,
    now: u64,
    operation: usize,
)
    requires
        v.stage is Idle,
    ensures
        ({
            let done = finished(
                activated(started(armed(v, request)), request.gesture_id, session_id, now),
                session_id,
                operation,
            );
            done.stage is Idle && done.ended == v.ended.push((operation, request.paths))
        }),
{
}

/// A drag that could not be started is reported as ended with nothing done.
pub proof fn failed_start_is_reported(v: DragView, request: RequestView)
    requires
        v.stage is Idle,
    ensures
        ({
            let done = start_failed(started(armed(v, request)), request.gesture_id);
            done.stage is Idle && done.ended == v.ended.push((OPERATION_NONE, request.paths))
        }),
{
}

/// A drag goes through its stages with the files it was asked for: it waits, it is being started with
/// the next motion, it is under way, and then it is over. What was dragged, and how it ended, is
/// reported once, behind what was reported before.
pub proof fn drag_goes_through_its_stages(
    ended: Seq<(usize, Seq<Seq<u8>>)>,
    request: RequestView,
    session_id: usize,
    now: u64,
    operation: usize,
)
    ensures
        ({
            let idle = DragView { stage: DragStage::Idle, ended };
            let waiting = armed(idle, request);
            let starting = started(waiting);
            let active = activated(starting, request.gesture_id, session_id, now);
            let over = finished(active, session_id, operation);
            &&& waiting == (DragView { stage: DragStage::Pending(request), ended })
            &&& starting == (DragView { stage: DragStage::Starting(request), ended })
            &&& active == (DragView {
                stage: DragStage::Active(RequestView { entered_at: now, ..request }, session_id),
                ended,
            })
            &&& over.stage == DragStage::Idle
            &&& over.ended == ended + seq![(operation, request.paths)]
        }),
{
    let idle = DragView { stage: DragStage::Idle, ended };
    let over = finished(
        activated(started(armed(idle, request)), request.gesture_id, session_id, now),
        session_id,
        operation,
    );
    assert(over.ended =~= ended + seq![(operation, request.paths)]);
}

/// A new drag takes the place of one that waits or is under way for another gesture; one that was
/// under way is reported as not carried out. One that is being started is left alone, and so is one
/// for the same gesture.
pub proof fn new_drag_replaces_a_stale_one(v: DragView, request: RequestView)
    ensures
        v.stage is Idle ==> armed(v, request).stage == DragStage::Pending(request) && armed(
            v,
            request,
        ).ended == v.ended && arm_outcome(v.stage, request.gesture_id)
            == BeginExternalDragOutcome::Armed,
        v.stage is Pending && v.stage->Pending_0.gesture_id != request.gesture_id ==> armed(
            v,
            request,
        ).stage == DragStage::Pending(request) && armed(v, request).ended == v.ended && arm_outcome(
            v.stage,
            request.gesture_id,
        ) == BeginExternalDragOutcome::RecoveredStalePending,
        v.stage is Active && v.stage->Active_0.gesture_id != request.gesture_id ==> armed(
            v,
            request,
        ).stage == DragStage::Pending(request) && armed(v, request).ended == v.ended + seq![
            (0usize, v.stage->Active_0.paths),
        ] && arm_outcome(v.stage, request.gesture_id)
            == BeginExternalDragOutcome::RecoveredStaleActive,
        v.stage is Starting ==> armed(v, request) == v && arm_outcome(v.stage, request.gesture_id)
            == BeginExternalDragOutcome::AlreadyActive,
        v.stage is Pending && v.stage->Pending_0.gesture_id == request.gesture_id ==> armed(
            v,
            request,
        ) == v && arm_outcome(v.stage, request.gesture_id)
            == BeginExternalDragOutcome::AlreadyArmed,
        v.stage is Active && v.stage->Active_0.gesture_id == request.gesture_id ==> armed(v, request)
            == v && arm_outcome(v.stage, request.gesture_id)
            == BeginExternalDragOutcome::AlreadyActive,
{
    if v.stage is Active && v.stage->Active_0.gesture_id != request.gesture_id {
        assert(armed(v, request).ended =~= v.ended + seq![(0usize, v.stage->Active_0.paths)]);
    }
}

/// What is reported of another drag than the one under way changes nothing: neither that it started,
/// nor that it failed, nor that it ended.
pub proof fn reports_of_other_drags_are_ignored(
    v: DragView,
    gesture_id: u64,
    session_id: usize,
    now: u64,
    operation: usize,
)
    ensures
        !(v.stage is Starting) ==> activated(v, gesture_id, session_id, now) == v && start_failed(
            v,
            gesture_id,
        ) == v,
        v.stage is Starting && v.stage->Starting_0.gesture_id != gesture_id ==> activated(
            v,
            gesture_id,
            session_id,
            now,
        ) == v && start_failed(v, gesture_id) == v,
        !(v.stage is Active) ==> finished(v, session_id, operation) == v,
        v.stage is Active && v.stage->Active_1 != session_id ==> finished(v, session_id, operation)
            == v,
        !(v.stage is Pending) ==> started(v) == v && cancelled(v) == v,
        v.stage is Pending ==> cancelled(v).stage == DragStage::Idle && cancelled(v).ended
            == v.ended,
        v.stage is Starting && v.stage->Starting_0.gesture_id == gesture_id ==> start_failed(
            v,
            gesture_id,
        ).stage == DragStage::Idle && start_failed(v, gesture_id).ended == v.ended.push(
            (0usize, v.stage->Starting_0.paths),
        ),
        in_session(v) <==> v.stage is Starting || v.stage is Active,
        OPERATION_NONE == 0,
        OPERATION_COPY == 1,
{
}

/// Of the dragged paths those that still exist are kept, in their order.
pub proof fn existing_paths_are_kept(
    a: Seq<Seq<u8>>,
    b: Seq<Seq<u8>>,
    fa: Seq<bool>,
    fb: Seq<bool>,
    p: Seq<u8>,
)
    requires
        a.len() == fa.len(),
        b.len() == fb.len(),
    ensures
        kept_paths(a + b, fa + fb) == kept_paths(a, fa) + kept_paths(b, fb),
        kept_paths(seq![p], seq![true]) == seq![p],
        kept_paths(seq![p], seq![false]).len() == 0,
    decreases b.len(),
{
    reveal_with_fuel(kept_paths, 2);
    assert(seq![p].drop_last() =~= Seq::<Seq<u8>>::empty());
    assert(kept_paths(seq![p], seq![true]) =~= seq![p]);
    if b.len() == 0 {
        assert(a + b =~= a);
        assert(fa + fb =~= fa);
        assert(kept_paths(a, fa) + kept_paths(b, fb) =~= kept_paths(a, fa));
    } else {
        existing_paths_are_kept(a, b.drop_last(), fa, fb.drop_last(), p);
        assert((a + b).drop_last() =~= a + b.drop_last());
        assert((fa + fb).drop_last() =~= fa + fb.drop_last());
        assert((a + b).last() == b.last());
        assert((fa + fb).last() == fb.last());
        assert(kept_paths(a + b, fa + fb) =~= kept_paths(a, fa) + kept_paths(b, fb));
    }
}

/// What is said where a drag cannot start.
pub proof fn drag_errors_tell_what_is_wrong(said: String)
    ensures
        BeginExternalDragError::UnsupportedPlatform.text()
            == "native external drag is only available on macOS"@,
        BeginExternalDragError::EmptyRequest.text() == "cannot start an empty drag"@,
        BeginExternalDragError::MissingPaths.text() == "none of the dragged paths still exist"@,
        BeginExternalDragError::HookInstall(said).text() == said@,
{
}

} // verus!
