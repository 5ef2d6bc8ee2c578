//! The editing session: immutable snapshots, the debounced recompilation
//! state machine, and the laws it obeys.

use crate::catalog::{default_theme_name, resolve_theme_index, spec_default_theme, spec_has_name};
use crate::compiler::{compile_timed, spec_generated};
use crate::strutil::str_eq;
use vstd::prelude::*;
use vstd::string::StringExecFns;

verus! {

/// The fixed quiet period of the debounce timer, in milliseconds. It is a
/// design parameter of the session, not user-configurable.
pub const DEBOUNCE_DELAY_MS: u64 = 500;

/// Which of the two editable source buffers an edit targets.
#[derive(Clone, Copy, PartialEq, Eq, Structural, Debug)]
pub enum SourceKind {
    StructSource,
    TemplateSource,
}

/// One armed, cancellable timer: an opaque handle and the instant, in
/// session time, at which its quiet period ends.
#[derive(Clone, Copy, PartialEq, Eq, Structural, Debug)]
pub struct ArmedTimer {
    pub handle: u64,
    pub deadline: u64,
}

/// The single pending-timer slot of one editing session: at most one timer
/// is armed at a time, and arming a new one cancels the old one.
pub struct DebounceScheduler {
    pub next_handle: u64,
    pub pending: Option<ArmedTimer>,
}

impl DebounceScheduler {
    /// Handles are handed out in increasing order, so a cancelled handle is
    /// never armed again.
    pub open spec fn wf(self) -> bool {
        match self.pending {
            Some(t) => t.handle < self.next_handle,
            None => true,
        }
    }

    /// A fresh scheduler with nothing armed.
    pub fn new() -> (s: DebounceScheduler)
        ensures
            s.pending is None,
            s.next_handle == 0,
            s.wf(),
    {
        DebounceScheduler { next_handle: 0, pending: None }
    }

    /// Cancels any previously armed timer of this session and arms a fresh
    /// one whose quiet period ends at `now + delay`. Of a burst of calls,
    /// only the handle armed by the last call survives.
    pub fn reschedule(&mut self, now: u64, delay: u64) -> (h: u64)
        requires
            old(self).wf(),
            old(self).next_handle < u64::MAX,
            now + delay <= u64::MAX,
        ensures
            h == old(self).next_handle,
            final(self).next_handle == old(self).next_handle + 1,
            final(self).pending == Some(ArmedTimer { handle: h, deadline: (now + delay) as u64 }),
            final(self).wf(),
    {
        let h = self.next_handle;
        self.next_handle = self.next_handle + 1;
        self.pending = Some(ArmedTimer { handle: h, deadline: now + delay });
        h
    }

    /// Disarms the pending timer, if any.
    pub fn cancel(&mut self)
        ensures
            final(self).pending is None,
            final(self).next_handle == old(self).next_handle,
            final(self).wf(),
    {
        self.pending = None;
    }
}

/// The complete state of one editing session at one point in time. Every
/// transition replaces the whole snapshot: no partial update is ever
/// visible.
///
/// `compile_duration` reflects only the most recent completed compile,
/// whatever happened since -- an edit leaves it on display beside the
/// stale generated code, and a theme change does not clear it. That is a
/// deliberate policy choice.
pub struct Snapshot {
    pub theme: String,
    pub struct_source: String,
    pub template_source: String,
    pub generated_code: String,
    pub compile_duration: Option<u64>,
    pub pending_timer: Option<u64>,
}

/// The mathematical image of a snapshot.
#[verifier::ext_equal]
pub struct SnapshotModel {
    pub theme: Seq<char>,
    pub struct_source: Seq<char>,
    pub template_source: Seq<char>,
    pub generated_code: Seq<char>,
    pub compile_duration: Option<u64>,
    pub pending_timer: Option<u64>,
}

impl View for Snapshot {
    type V = SnapshotModel;

    open spec fn view(&self) -> SnapshotModel {
        SnapshotModel {
            theme: self.theme@,
            struct_source: self.struct_source@,
            template_source: self.template_source@,
            generated_code: self.generated_code@,
            compile_duration: self.compile_duration,
            pending_timer: self.pending_timer,
        }
    }
}

/// One editing session: the current snapshot, the timer slot, and a count
/// of completed compiles.
pub struct CompileSession {
    pub snapshot: Snapshot,
    pub scheduler: DebounceScheduler,
    pub compile_count: u64,
}

/// The mathematical image of a session.
#[verifier::ext_equal]
pub struct SessionModel {
    pub snapshot: SnapshotModel,
    pub pending: Option<ArmedTimer>,
    pub next_handle: u64,
    pub compile_count: u64,
}

impl View for CompileSession {
    type V = SessionModel;

    open spec fn view(&self) -> SessionModel {
        SessionModel {
            snapshot: self.snapshot@,
            pending: self.scheduler.pending,
            next_handle: self.scheduler.next_handle,
            compile_count: self.compile_count,
        }
    }
}

impl SessionModel {
    /// The session invariant: the timer slot is well formed, the snapshot
    /// mirrors it, and in the idle state a recorded duration belongs to a
    /// compile of exactly the source pair stored beside it.
    pub open spec fn wf(self) -> bool {
        &&& match self.pending {
            Some(t) => t.handle < self.next_handle,
            None => true,
        }
        &&& self.snapshot.pending_timer == match self.pending {
            Some(t) => Some(t.handle),
            None => None::<u64>,
        }
        &&& (self.pending is None && self.snapshot.compile_duration is Some
            ==> self.snapshot.generated_code == spec_generated(
            self.snapshot.struct_source,
            self.snapshot.template_source,
        ))
    }
}

/// The edit transition: replace one source buffer, keep the previous
/// generated code and duration on display, cancel the pending timer and
/// arm a fresh one whose quiet period ends one delay after `now`.
pub open spec fn spec_edit(m: SessionModel, kind: SourceKind, text: Seq<char>, now: u64) -> SessionModel {
    SessionModel {
        snapshot: SnapshotModel {
            struct_source: if kind == SourceKind::StructSource {
                text
            } else {
                m.snapshot.struct_source
            },
            template_source: if kind == SourceKind::TemplateSource {
                text
            } else {
                m.snapshot.template_source
            },
            pending_timer: Some(m.next_handle),
            ..m.snapshot
        },
        pending: Some(
            ArmedTimer { handle: m.next_handle, deadline: (now + DEBOUNCE_DELAY_MS) as u64 },
        ),
        next_handle: (m.next_handle + 1) as u64,
        compile_count: m.compile_count,
    }
}

/// The timer transition: a firing timer recompiles only when its handle is
/// the one still armed; the firing of a cancelled handle changes nothing.
pub open spec fn spec_fire(m: SessionModel, handle: u64, duration: Option<u64>) -> SessionModel {
    match m.pending {
        Some(t) => if t.handle == handle {
            SessionModel {
                snapshot: SnapshotModel {
                    generated_code: spec_generated(
                        m.snapshot.struct_source,
                        m.snapshot.template_source,
                    ),
                    compile_duration: duration,
                    pending_timer: None,
                    ..m.snapshot
                },
                pending: None,
                next_handle: m.next_handle,
                compile_count: (m.compile_count + 1) as u64,
            }
        } else {
            m
        },
        None => m,
    }
}

/// The theme transition: a theme the catalog knows replaces the current
/// one; an unknown theme changes nothing.
pub open spec fn spec_theme_change(m: SessionModel, known: bool, theme: Seq<char>) -> SessionModel {
    if known {
        SessionModel { snapshot: SnapshotModel { theme, ..m.snapshot }, ..m }
    } else {
        m
    }
}

impl CompileSession {
    /// Creates the first snapshot from an already resolved theme and source
    /// pair: one synchronous compile, no timer armed.
    pub fn init(theme: String, struct_source: String, template_source: String) -> (s:
        CompileSession)
        ensures
            s@.wf(),
            s@.snapshot.theme == theme@,
            s@.snapshot.struct_source == struct_source@,
            s@.snapshot.template_source == template_source@,
            s@.snapshot.generated_code == spec_generated(struct_source@, template_source@),
            s@.snapshot.pending_timer is None,
            s@.pending is None,
            s@.next_handle == 0,
            s@.compile_count == 1,
    {
        let (code, duration) = compile_timed(struct_source.as_str(), template_source.as_str());
        CompileSession {
            snapshot: Snapshot {
                theme,
                struct_source,
                template_source,
                generated_code: code,
                compile_duration: duration,
                pending_timer: None,
            },
            scheduler: DebounceScheduler::new(),
            compile_count: 1,
        }
    }

    /// Replaces one source buffer and re-arms the debounce timer: the
    /// previously armed timer, if any, is cancelled, and the generated code
    /// and duration of the last completed compile stay on display until the
    /// new timer fires. Returns the fresh timer handle, which the host is
    /// to fire at its deadline.
    pub fn on_source_edit(&mut self, kind: SourceKind, new_text: String, now: u64) -> (h: u64)
        requires
            old(self)@.wf(),
            old(self)@.next_handle < u64::MAX,
            now + DEBOUNCE_DELAY_MS <= u64::MAX,
        ensures
            final(self)@ == spec_edit(old(self)@, kind, new_text@, now),
            final(self)@.wf(),
            h == old(self)@.next_handle,
    {
        let ghost t = new_text@;
        match kind {
            SourceKind::StructSource => {
                self.snapshot.struct_source = new_text;
            },
            SourceKind::TemplateSource => {
                self.snapshot.template_source = new_text;
            },
        }
        let h = self.scheduler.reschedule(now, DEBOUNCE_DELAY_MS);
        self.snapshot.pending_timer = Some(h);
        proof {
            assert(self@ =~= spec_edit(old(self)@, kind, t, now));
        }
        h
    }

    /// Validates a theme change against the catalog's names: a known theme
    /// is taken over, an unknown one is refused and the previous theme
    /// kept. The result says whether the theme was known; a `false` is the
    /// recoverable theme-not-found condition. No recompile is triggered.
    pub fn on_theme_change(&mut self, names: &Vec<String>, new_theme: String) -> (known: bool)
        requires
            old(self)@.wf(),
        ensures
            known == spec_has_name(names@, new_theme@),
            final(self)@ == spec_theme_change(old(self)@, known, new_theme@),
            final(self)@.wf(),
    {
        let mut i: usize = 0;
        let mut found = false;
        while i < names.len()
            invariant
                i <= names@.len(),
                found == (exists|j: int| 0 <= j < i && names@[j]@ == new_theme@),
            decreases names@.len() - i,
        {
            if str_eq(names[i].as_str(), new_theme.as_str()) {
                found = true;
            }
            i = i + 1;
        }
        if found {
            self.snapshot.theme = new_theme;
        }
        found
    }

    /// Receives the firing of a timer handle from the host. Only the
    /// currently armed handle compiles: it recompiles the source pair as of
    /// the last edit, records the generated code and the measured duration
    /// in a fresh snapshot, and disarms the slot. The firing of any other,
    /// cancelled handle changes nothing.
    pub fn on_timer_fire(&mut self, handle: u64) -> (fired: bool)
        requires
            old(self)@.wf(),
            old(self)@.compile_count < u64::MAX,
        ensures
            fired == match old(self)@.pending {
                Some(t) => t.handle == handle,
                None => false,
            },
            exists|d: Option<u64>| final(self)@ == spec_fire(old(self)@, handle, d),
            final(self)@.wf(),
            fired ==> final(self)@.snapshot.generated_code == spec_generated(
                old(self)@.snapshot.struct_source,
                old(self)@.snapshot.template_source,
            ) && final(self)@.compile_count == old(self)@.compile_count + 1,
            !fired ==> final(self)@ == old(self)@,
    {
        let armed = match self.scheduler.pending {
            Some(t) => t.handle == handle,
            None => false,
        };
        if armed {
            let (code, duration) = compile_timed(
                self.snapshot.struct_source.as_str(),
                self.snapshot.template_source.as_str(),
            );
            self.snapshot.generated_code = code;
            self.snapshot.compile_duration = duration;
            self.snapshot.pending_timer = None;
            self.scheduler.cancel();
            self.compile_count = self.compile_count + 1;
            proof {
                assert(self@ =~= spec_fire(old(self)@, handle, self.snapshot.compile_duration));
            }
            true
        } else {
            proof {
                assert(self@ =~= spec_fire(old(self)@, handle, None));
            }
            false
        }
    }
}

/// The built-in struct source shown when nothing was persisted.
pub open spec fn spec_default_struct_source() -> Seq<char> {
    (r##"#[derive(Template)]
#[template(ext = "html")]
// in the preview, the `source="…"` or `path="…"` argument is provided for you
struct HelloWorld<'a> {
    user: &'a str,
    first_visit: bool,
}"##)@
}

/// The built-in struct source, as a value.
pub fn default_struct_source() -> (r: &'static str)
    ensures
        r@ == spec_default_struct_source(),
{
    r##"#[derive(Template)]
#[template(ext = "html")]
// in the preview, the `source="…"` or `path="…"` argument is provided for you
struct HelloWorld<'a> {
    user: &'a str,
    first_visit: bool,
}"##
}

/// The built-in template source shown when nothing was persisted.
pub open spec fn spec_default_template_source() -> Seq<char> {
    (r##"<div class="example">
    Hello, <strong>{{user}}</strong>!
    {%~ if first_visit -%}
        <br />
        Nice to meet you.
    {%~ endif -%}
</div>"##)@
}

/// The built-in template source, as a value.
pub fn default_template_source() -> (r: &'static str)
    ensures
        r@ == spec_default_template_source(),
{
    r##"<div class="example">
    Hello, <strong>{{user}}</strong>!
    {%~ if first_visit -%}
        <br />
        Nice to meet you.
    {%~ endif -%}
</div>"##
}

/// Resolves the initial editor state: each persisted value where present,
/// else the built-in default; the persisted theme resolved against the
/// catalog, an absent, corrupted or unknown one falling back quietly to
/// the designated default theme or the catalog's first theme. Performs the
/// one initial synchronous compile; no timer is armed.
pub fn initial_session(
    names: &Vec<String>,
    persisted_theme: Option<String>,
    persisted_struct: Option<String>,
    persisted_template: Option<String>,
) -> (s: CompileSession)
    requires
        names@.len() > 0,
    ensures
        s@.wf(),
        s@.pending is None,
        s@.compile_count == 1,
        spec_has_name(names@, s@.snapshot.theme),
        s@.snapshot.generated_code == spec_generated(
            s@.snapshot.struct_source,
            s@.snapshot.template_source,
        ),
        s@.snapshot.struct_source == match persisted_struct {
            Some(p) => p@,
            None => spec_default_struct_source(),
        },
        s@.snapshot.template_source == match persisted_template {
            Some(p) => p@,
            None => spec_default_template_source(),
        },
        ({
            let req = match persisted_theme {
                Some(p) => p@,
                None => spec_default_theme(),
            };
            &&& spec_has_name(names@, req) ==> s@.snapshot.theme == req
            &&& !spec_has_name(names@, req) && spec_has_name(names@, spec_default_theme())
                ==> s@.snapshot.theme == spec_default_theme()
            &&& !spec_has_name(names@, req) && !spec_has_name(names@, spec_default_theme())
                ==> s@.snapshot.theme == names@[0]@
        }),
{
    let requested: &str = match &persisted_theme {
        Some(p) => p.as_str(),
        None => default_theme_name(),
    };
    let idx = resolve_theme_index(names, requested);
    let theme = names[idx].clone();
    let struct_source = match persisted_struct {
        Some(p) => p,
        None => String::from_str(default_struct_source()),
    };
    let template_source = match persisted_template {
        Some(p) => p,
        None => String::from_str(default_template_source()),
    };
    CompileSession::init(theme, struct_source, template_source)
}

/// One user edit: which buffer it targets, the new text, and the session
/// time at which it arrives.
pub struct EditEvent {
    pub kind: SourceKind,
    pub text: Seq<char>,
    pub time: u64,
}

/// A session after a sequence of edits, applied in order.
pub open spec fn spec_run_edits(m: SessionModel, edits: Seq<EditEvent>) -> SessionModel
    decreases edits.len(),
{
    if edits.len() == 0 {
        m
    } else {
        spec_run_edits(spec_edit(m, edits[0].kind, edits[0].text, edits[0].time), edits.drop_first())
    }
}

/// The content of one buffer after a sequence of edits.
pub open spec fn spec_text_after(orig: Seq<char>, edits: Seq<EditEvent>, kind: SourceKind) -> Seq<char>
    decreases edits.len(),
{
    if edits.len() == 0 {
        orig
    } else {
        spec_text_after(
            if edits[0].kind == kind {
                edits[0].text
            } else {
                orig
            },
            edits.drop_first(),
            kind,
        )
    }
}

/// A burst: each edit arrives at or after the previous one, strictly
/// within the quiet period opened by the previous one.
pub open spec fn spec_burst(edits: Seq<EditEvent>) -> bool {
    forall|i: int|
        0 <= i && i + 1 < edits.len() ==> (#[trigger] edits[i]).time <= edits[i + 1].time && edits[
            i + 1
        ].time - edits[i].time < DEBOUNCE_DELAY_MS
}

/// An edit preserves the session invariant.
pub proof fn lemma_edit_wf(m: SessionModel, kind: SourceKind, text: Seq<char>, now: u64)
    requires
        m.wf(),
        m.next_handle < u64::MAX,
    ensures
        spec_edit(m, kind, text, now).wf(),
{
}

/// Debounce coalescing: over a burst of edits each arriving strictly
/// within the quiet period of the one before, no compile runs, and exactly
/// one timer is left armed: the last edit's, whose quiet period ends one
/// delay after the last edit. Every handle armed earlier has been
/// cancelled, so its firing changes nothing; firing the surviving handle
/// performs exactly one compile, of the source pair as of the last edit,
/// never of an intermediate state.
#[verifier::rlimit(100)]
pub proof fn lemma_debounce_coalescing(m: SessionModel, edits: Seq<EditEvent>, duration: Option<
    u64,
>)
    requires
        m.wf(),
        edits.len() >= 1,
        spec_burst(edits),
        m.next_handle + edits.len() <= u64::MAX,
        m.compile_count < u64::MAX,
        edits[edits.len() - 1].time + DEBOUNCE_DELAY_MS <= u64::MAX,
    ensures
        ({
            let s1 = spec_run_edits(m, edits);
            let last = edits[edits.len() - 1];
            let survivor = (m.next_handle + edits.len() - 1) as u64;
            &&& s1.wf()
            &&& s1.compile_count == m.compile_count
            &&& s1.next_handle == m.next_handle + edits.len()
            &&& s1.pending == Some(
                ArmedTimer {
                    handle: survivor,
                    deadline: (last.time + DEBOUNCE_DELAY_MS) as u64,
                },
            )
            &&& s1.snapshot.struct_source == spec_text_after(
                m.snapshot.struct_source,
                edits,
                SourceKind::StructSource,
            )
            &&& s1.snapshot.template_source == spec_text_after(
                m.snapshot.template_source,
                edits,
                SourceKind::TemplateSource,
            )
            &&& s1.snapshot.generated_code == m.snapshot.generated_code
            &&& forall|h: u64, d: Option<u64>|
                h != survivor ==> #[trigger] spec_fire(s1, h, d) == s1
            &&& spec_fire(s1, survivor, duration).compile_count == m.compile_count + 1
            &&& spec_fire(s1, survivor, duration).snapshot.generated_code == spec_generated(
                s1.snapshot.struct_source,
                s1.snapshot.template_source,
            )
            &&& spec_fire(s1, survivor, duration).pending is None
        }),
    decreases edits.len(),
{
    let e0 = edits[0];
    let m1 = spec_edit(m, e0.kind, e0.text, e0.time);
    lemma_edit_wf(m, e0.kind, e0.text, e0.time);
    let rest = edits.drop_first();
    if edits.len() == 1 {
        assert(rest.len() == 0);
        assert(spec_run_edits(m, edits) == m1);
        assert(spec_text_after(m.snapshot.struct_source, edits, SourceKind::StructSource)
            == spec_text_after(
            m1.snapshot.struct_source,
            rest,
            SourceKind::StructSource,
        ));
        assert(spec_text_after(m.snapshot.template_source, edits, SourceKind::TemplateSource)
            == spec_text_after(
            m1.snapshot.template_source,
            rest,
            SourceKind::TemplateSource,
        ));
    } else {
        assert(spec_burst(rest)) by {
            assert forall|i: int| 0 <= i && i + 1 < rest.len() implies (#[trigger] rest[i]).time
                <= rest[i + 1].time && rest[i + 1].time - rest[i].time < DEBOUNCE_DELAY_MS by {
                assert(rest[i] == edits[i + 1]);
                assert(rest[i + 1] == edits[i + 2]);
                assert(edits[i + 1].time <= edits[i + 2].time && edits[i + 2].time - edits[i
                    + 1].time < DEBOUNCE_DELAY_MS);
            }
        }
        assert(rest[rest.len() - 1] == edits[edits.len() - 1]);
        lemma_debounce_coalescing(m1, rest, duration);
        assert(spec_run_edits(m, edits) == spec_run_edits(m1, rest));
        assert(spec_text_after(m.snapshot.struct_source, edits, SourceKind::StructSource)
            == spec_text_after(
            m1.snapshot.struct_source,
            rest,
            SourceKind::StructSource,
        ));
        assert(spec_text_after(m.snapshot.template_source, edits, SourceKind::TemplateSource)
            == spec_text_after(
            m1.snapshot.template_source,
            rest,
            SourceKind::TemplateSource,
        ));
    }
}

/// Edit spacing: two edits farther apart than one quiet period trigger two
/// independent compiles. The first edit's timer reaches its deadline
/// before the second edit arrives and compiles the pair as of the first
/// edit; the second edit's timer then compiles the pair as of the second.
pub proof fn lemma_edit_spacing(
    m: SessionModel,
    e1: EditEvent,
    e2: EditEvent,
    d1: Option<u64>,
    d2: Option<u64>,
)
    requires
        m.wf(),
        m.next_handle + 2 <= u64::MAX,
        m.compile_count + 2 <= u64::MAX,
        e1.time + DEBOUNCE_DELAY_MS < e2.time,
        e2.time + DEBOUNCE_DELAY_MS <= u64::MAX,
    ensures
        ({
            let s1 = spec_edit(m, e1.kind, e1.text, e1.time);
            let s2 = spec_fire(s1, m.next_handle, d1);
            let s3 = spec_edit(s2, e2.kind, e2.text, e2.time);
            let s4 = spec_fire(s3, s2.next_handle, d2);
            &&& s1.pending == Some(
                ArmedTimer {
                    handle: m.next_handle,
                    deadline: (e1.time + DEBOUNCE_DELAY_MS) as u64,
                },
            )
            &&& ((e1.time + DEBOUNCE_DELAY_MS) as u64) < e2.time
            &&& s2.compile_count == m.compile_count + 1
            &&& s2.snapshot.generated_code == spec_generated(
                s1.snapshot.struct_source,
                s1.snapshot.template_source,
            )
            &&& s2.pending is None
            &&& s4.compile_count == m.compile_count + 2
            &&& s4.snapshot.generated_code == spec_generated(
                s3.snapshot.struct_source,
                s3.snapshot.template_source,
            )
            &&& s4.pending is None
        }),
{
}

/// Idempotent compile: firing a timer over one and the same source pair in
/// two sessions yields one and the same generated text, whatever the
/// handles and measured durations: the compiler collaborator is a pure
/// function of the pair.
pub proof fn lemma_idempotent_compile(
    a: SessionModel,
    b: SessionModel,
    ha: u64,
    hb: u64,
    da: Option<u64>,
    db: Option<u64>,
)
    requires
        a.snapshot.struct_source == b.snapshot.struct_source,
        a.snapshot.template_source == b.snapshot.template_source,
        match a.pending {
            Some(t) => t.handle == ha,
            None => false,
        },
        match b.pending {
            Some(t) => t.handle == hb,
            None => false,
        },
    ensures
        spec_fire(a, ha, da).snapshot.generated_code == spec_fire(
            b,
            hb,
            db,
        ).snapshot.generated_code,
{
}

} // verus!

