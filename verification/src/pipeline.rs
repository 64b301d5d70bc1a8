//! The translation pipeline: per segment, one primary translation request and
//! a configured number of refinement requests, each under the same hard
//! timeout, with a fail-fast policy — any timeout or service error aborts the
//! whole run.

use vstd::prelude::*;
use vstd::string::StringExecFns;

verus! {

/// The wall-clock deadline, in seconds, for each translation-service call.
pub const SERVICE_TIMEOUT_SECS: u64 = 20;

/// Sampling temperature of the primary translation call, in tenths: fixed
/// low-moderate to favor fidelity over creativity.
pub const PRIMARY_TEMPERATURE_TENTHS: u32 = 4;

/// Sampling temperature of the refinement calls, in tenths: fixed lower to
/// favor conservative edits.
pub const REFINE_TEMPERATURE_TENTHS: u32 = 1;

/// The prompt of the primary translation request for `text` into `language`.
pub open spec fn primary_prompt_spec(language: Seq<char>, text: Seq<char>) -> Seq<char> {
    "Translate the following text to "@ + language + ":\n"@ + text + "\n"@ + language + ":"@
}

/// The system instruction accompanying the primary translation request: the
/// service must answer with the translation alone, keep the style, and leave
/// links untranslated.
pub open spec fn primary_system_spec() -> Seq<char> {
    "You are a professional translator. Don't answer with any notes. Answer only with the translation. Don't add the original. Follow the original style. Don't translate links."@
}

/// The prompt of a refinement request: it carries the original text and the
/// current translation `post`.
pub open spec fn refine_prompt_spec(
    language: Seq<char>,
    original: Seq<char>,
    post: Seq<char>,
) -> Seq<char> {
    "Given the original text, fix the "@ + language + " translated version.\nOriginal: "@
        + original + "\nTranslated: "@ + post
}

/// The system instruction accompanying a refinement request: fix only genuine
/// errors, keep the style, and echo the input when nothing needs fixing.
pub open spec fn refine_system_spec() -> Seq<char> {
    "You are a professional translator. Fix the issues with this translation. Write only the translated sentence with the fixes. If there aren't errors, copy the translated sentence. Don't write anything else. Follow the original style."@
}

/// Builds the primary translation prompt.
pub fn primary_prompt(language: &str, text: &str) -> (r: String)
    ensures
        r@ == primary_prompt_spec(language@, text@),
{
    let mut s = String::from_str("Translate the following text to ");
    s.append(language);
    s.append(":\n");
    s.append(text);
    s.append("\n");
    s.append(language);
    s.append(":");
    proof {
        assert(s@ =~= primary_prompt_spec(language@, text@));
    }
    s
}

/// Builds the primary system instruction.
pub fn primary_system() -> (r: String)
    ensures
        r@ == primary_system_spec(),
{
    String::from_str(
        "You are a professional translator. Don't answer with any notes. Answer only with the translation. Don't add the original. Follow the original style. Don't translate links.",
    )
}

/// Builds the refinement prompt from the original text and the current
/// translation.
pub fn refine_prompt(language: &str, original: &str, post: &str) -> (r: String)
    ensures
        r@ == refine_prompt_spec(language@, original@, post@),
{
    let mut s = String::from_str("Given the original text, fix the ");
    s.append(language);
    s.append(" translated version.\nOriginal: ");
    s.append(original);
    s.append("\nTranslated: ");
    s.append(post);
    proof {
        assert(s@ =~= refine_prompt_spec(language@, original@, post@));
    }
    s
}

/// Builds the refinement system instruction.
pub fn refine_system() -> (r: String)
    ensures
        r@ == refine_system_spec(),
{
    String::from_str(
        "You are a professional translator. Fix the issues with this translation. Write only the translated sentence with the fixes. If there aren't errors, copy the translated sentence. Don't write anything else. Follow the original style.",
    )
}

/// The state of one segment's walk through the pipeline: waiting for the
/// primary translation, refining it with a number of passes left, finalized,
/// or failed (terminal — the whole run aborts).
pub enum SegStatus {
    Primary,
    Refining { post: String, remaining: usize },
    Done { post: String },
    Failed,
}

/// The mathematical shadow of `SegStatus`.
pub enum SegStatusSpec {
    Primary,
    Refining { post: Seq<char>, remaining: nat },
    Done { post: Seq<char> },
    Failed,
}

impl View for SegStatus {
    type V = SegStatusSpec;

    open spec fn view(&self) -> SegStatusSpec {
        match self {
            SegStatus::Primary => SegStatusSpec::Primary,
            SegStatus::Refining { post, remaining } => SegStatusSpec::Refining {
                post: post@,
                remaining: *remaining as nat,
            },
            SegStatus::Done { post } => SegStatusSpec::Done { post: post@ },
            SegStatus::Failed => SegStatusSpec::Failed,
        }
    }
}

/// What one translation-service call came to: a response, or one of the two
/// failure kinds, which the pipeline treats identically.
pub enum ServiceEvent {
    Response(String),
    Timeout,
    ServiceError,
}

impl View for ServiceEvent {
    type V = Option<Seq<char>>;

    open spec fn view(&self) -> Option<Seq<char>> {
        match self {
            ServiceEvent::Response(text) => Some(text@),
            ServiceEvent::Timeout => None,
            ServiceEvent::ServiceError => None,
        }
    }
}

/// The transition the pipeline makes when the pending call of state `st`
/// comes back with `ev`: a response to the primary call starts `passes`
/// refinement passes (or finalizes at once when none are configured), a
/// response to a refinement call replaces the translation and spends one
/// pass, and any failure is terminal. Terminal states do not move.
pub open spec fn spec_step(st: SegStatusSpec, ev: Option<Seq<char>>, passes: nat) -> SegStatusSpec {
    match st {
        SegStatusSpec::Primary => match ev {
            Some(text) => {
                if passes == 0 {
                    SegStatusSpec::Done { post: text }
                } else {
                    SegStatusSpec::Refining { post: text, remaining: passes }
                }
            },
            None => SegStatusSpec::Failed,
        },
        SegStatusSpec::Refining { post, remaining } => match ev {
            Some(text) => {
                if remaining <= 1 {
                    SegStatusSpec::Done { post: text }
                } else {
                    SegStatusSpec::Refining { post: text, remaining: (remaining - 1) as nat }
                }
            },
            None => SegStatusSpec::Failed,
        },
        SegStatusSpec::Done { post } => SegStatusSpec::Done { post },
        SegStatusSpec::Failed => SegStatusSpec::Failed,
    }
}

impl SegStatus {
    /// A fresh segment, about to issue its primary translation request.
    pub fn new() -> (r: SegStatus)
        ensures
            r@ is Primary,
    {
        SegStatus::Primary
    }

    /// Whether the segment still has a call to make.
    pub fn is_pending(&self) -> (r: bool)
        ensures
            r == (self@ is Primary || self@ is Refining),
    {
        match self {
            SegStatus::Primary => true,
            SegStatus::Refining { .. } => true,
            SegStatus::Done { .. } => false,
            SegStatus::Failed => false,
        }
    }

    /// The prompt and system instruction of the pending call, or nothing when
    /// the segment is finalized or failed.
    pub fn next_request(&self, original: &str, language: &str) -> (r: Option<(String, String)>)
        ensures
            self@ is Primary ==> (r matches Some(req) && req.0@ == primary_prompt_spec(
                language@,
                original@,
            ) && req.1@ == primary_system_spec()),
            self@ matches SegStatusSpec::Refining { post, remaining } ==> (r matches Some(req)
                && req.0@ == refine_prompt_spec(language@, original@, post) && req.1@
                == refine_system_spec()),
            self@ is Done || self@ is Failed ==> r is None,
    {
        match self {
            SegStatus::Primary => Some(
                (primary_prompt(language, original), primary_system()),
            ),
            SegStatus::Refining { post, .. } => Some(
                (refine_prompt(language, original, post.as_str()), refine_system()),
            ),
            SegStatus::Done { .. } => None,
            SegStatus::Failed => None,
        }
    }

    /// Feeds the outcome of the pending call into the state machine.
    pub fn step(self, event: ServiceEvent, passes: usize) -> (r: SegStatus)
        ensures
            r@ == spec_step(self@, event@, passes as nat),
    {
        match self {
            SegStatus::Primary => match event {
                ServiceEvent::Response(text) => {
                    if passes == 0 {
                        SegStatus::Done { post: text }
                    } else {
                        SegStatus::Refining { post: text, remaining: passes }
                    }
                },
                _ => SegStatus::Failed,
            },
            SegStatus::Refining { post: _, remaining } => match event {
                ServiceEvent::Response(text) => {
                    if remaining <= 1 {
                        SegStatus::Done { post: text }
                    } else {
                        SegStatus::Refining { post: text, remaining: remaining - 1 }
                    }
                },
                _ => SegStatus::Failed,
            },
            SegStatus::Done { post } => SegStatus::Done { post },
            SegStatus::Failed => SegStatus::Failed,
        }
    }

    /// The finalized translation, when the segment reached the done state.
    pub fn finished_text(self) -> (r: Option<String>)
        ensures
            self@ matches SegStatusSpec::Done { post } ==> (r matches Some(text) && text@ == post),
            !(self@ is Done) ==> r is None,
    {
        match self {
            SegStatus::Done { post } => Some(post),
            _ => None,
        }
    }
}

/// How far a segment still has to go, for termination of the run model.
pub open spec fn status_measure(st: SegStatusSpec, passes: nat) -> nat {
    match st {
        SegStatusSpec::Primary => passes + 2,
        SegStatusSpec::Refining { post, remaining } => remaining + 1,
        SegStatusSpec::Done { post } => 0,
        SegStatusSpec::Failed => 0,
    }
}

/// Runs one segment's state machine to its terminal state against a service
/// modeled by two response functions — `primary(original)` and
/// `refine(original, post)`, each answering with a response or a failure —
/// and gives the finalized translation, or nothing on failure.
pub open spec fn run_status(
    st: SegStatusSpec,
    original: Seq<char>,
    passes: nat,
    primary: spec_fn(Seq<char>) -> Option<Seq<char>>,
    refine: spec_fn(Seq<char>, Seq<char>) -> Option<Seq<char>>,
) -> Option<Seq<char>>
    decreases status_measure(st, passes),
{
    match st {
        SegStatusSpec::Done { post } => Some(post),
        SegStatusSpec::Failed => None,
        SegStatusSpec::Primary => run_status(
            spec_step(st, primary(original), passes),
            original,
            passes,
            primary,
            refine,
        ),
        SegStatusSpec::Refining { post, remaining } => run_status(
            spec_step(st, refine(original, post), passes),
            original,
            passes,
            primary,
            refine,
        ),
    }
}

/// One segment's walk through the whole pipeline, from the primary request on.
pub open spec fn run_segment(
    original: Seq<char>,
    passes: nat,
    primary: spec_fn(Seq<char>) -> Option<Seq<char>>,
    refine: spec_fn(Seq<char>, Seq<char>) -> Option<Seq<char>>,
) -> Option<Seq<char>> {
    run_status(SegStatusSpec::Primary, original, passes, primary, refine)
}

/// The sequential run over all segments: each finalized translation is
/// written immediately, in order, and the first failure aborts the rest.
pub open spec fn run_all(
    segments: Seq<Seq<char>>,
    passes: nat,
    primary: spec_fn(Seq<char>) -> Option<Seq<char>>,
    refine: spec_fn(Seq<char>, Seq<char>) -> Option<Seq<char>>,
) -> Seq<Seq<char>>
    decreases segments.len(),
{
    if segments.len() == 0 {
        Seq::<Seq<char>>::empty()
    } else {
        match run_segment(segments[0], passes, primary, refine) {
            None => Seq::<Seq<char>>::empty(),
            Some(text) => seq![text] + run_all(segments.drop_first(), passes, primary, refine),
        }
    }
}

proof fn lemma_echo_refines(
    original: Seq<char>,
    post: Seq<char>,
    remaining: nat,
    passes: nat,
    primary: spec_fn(Seq<char>) -> Option<Seq<char>>,
    refine: spec_fn(Seq<char>, Seq<char>) -> Option<Seq<char>>,
)
    requires
        forall|p: Seq<char>| #[trigger] refine(original, p) == Some(p),
    ensures
        run_status(
            SegStatusSpec::Refining { post, remaining },
            original,
            passes,
            primary,
            refine,
        ) == Some(post),
    decreases remaining,
{
    let st = SegStatusSpec::Refining { post, remaining };
    assert(refine(original, post) == Some(post));
    if remaining <= 1 {
        assert(spec_step(st, Some(post), passes) == SegStatusSpec::Done { post });
        assert(run_status(SegStatusSpec::Done { post }, original, passes, primary, refine)
            == Some(post));
    } else {
        assert(spec_step(st, Some(post), passes) == SegStatusSpec::Refining {
            post,
            remaining: (remaining - 1) as nat,
        });
        lemma_echo_refines(original, post, (remaining - 1) as nat, passes, primary, refine);
    }
}

/// A service that echoes its input — the primary call answers with the
/// original text, a refinement call with the translation it was handed —
/// finalizes every segment as its own original text, whatever the number of
/// refinement passes.
pub proof fn lemma_echo_service_identity(
    original: Seq<char>,
    passes: nat,
    primary: spec_fn(Seq<char>) -> Option<Seq<char>>,
    refine: spec_fn(Seq<char>, Seq<char>) -> Option<Seq<char>>,
)
    requires
        primary(original) == Some(original),
        forall|p: Seq<char>| #[trigger] refine(original, p) == Some(p),
    ensures
        run_segment(original, passes, primary, refine) == Some(original),
{
    if passes == 0 {
        assert(spec_step(SegStatusSpec::Primary, Some(original), passes)
            == SegStatusSpec::Done { post: original });
        assert(run_status(
            SegStatusSpec::Done { post: original },
            original,
            passes,
            primary,
            refine,
        ) == Some(original));
    } else {
        assert(spec_step(SegStatusSpec::Primary, Some(original), passes)
            == SegStatusSpec::Refining { post: original, remaining: passes });
        lemma_echo_refines(original, original, passes, passes, primary, refine);
    }
}

/// When the service fails on segment `k`, the run writes exactly the
/// translations of the segments before `k`, in their original order, and
/// nothing after.
pub proof fn lemma_failure_stops_run(
    segments: Seq<Seq<char>>,
    passes: nat,
    primary: spec_fn(Seq<char>) -> Option<Seq<char>>,
    refine: spec_fn(Seq<char>, Seq<char>) -> Option<Seq<char>>,
    k: int,
)
    requires
        0 <= k < segments.len(),
        forall|i: int|
            0 <= i < k ==> (#[trigger] run_segment(segments[i], passes, primary, refine))
                is Some,
        run_segment(segments[k], passes, primary, refine) is None,
    ensures
        run_all(segments, passes, primary, refine).len() == k,
        forall|i: int|
            0 <= i < k ==> #[trigger] run_all(segments, passes, primary, refine)[i]
                == run_segment(segments[i], passes, primary, refine)->Some_0,
    decreases k,
{
    let out = run_all(segments, passes, primary, refine);
    if k == 0 {
        assert(out.len() == 0);
    } else {
        let rest = segments.drop_first();
        assert forall|i: int|
            0 <= i < k - 1 implies (#[trigger] run_segment(
            rest[i],
            passes,
            primary,
            refine,
        )) is Some by {
            assert(rest[i] == segments[i + 1]);
        }
        assert(rest[k - 1] == segments[k]);
        lemma_failure_stops_run(rest, passes, primary, refine, k - 1);
        let t0 = run_segment(segments[0], passes, primary, refine)->Some_0;
        assert(out == seq![t0] + run_all(rest, passes, primary, refine));
        assert forall|i: int| 0 <= i < k implies #[trigger] out[i] == run_segment(
            segments[i],
            passes,
            primary,
            refine,
        )->Some_0 by {
            if i > 0 {
                assert(out[i] == run_all(rest, passes, primary, refine)[i - 1]);
                assert(rest[i - 1] == segments[i]);
            }
        }
    }
}

/// When the service answers every segment, the run writes one translation per
/// segment, in their original order.
pub proof fn lemma_run_to_completion(
    segments: Seq<Seq<char>>,
    passes: nat,
    primary: spec_fn(Seq<char>) -> Option<Seq<char>>,
    refine: spec_fn(Seq<char>, Seq<char>) -> Option<Seq<char>>,
)
    requires
        forall|i: int|
            0 <= i < segments.len() ==> (#[trigger] run_segment(
                segments[i],
                passes,
                primary,
                refine,
            )) is Some,
    ensures
        run_all(segments, passes, primary, refine).len() == segments.len(),
        forall|i: int|
            0 <= i < segments.len() ==> #[trigger] run_all(segments, passes, primary, refine)[i]
                == run_segment(segments[i], passes, primary, refine)->Some_0,
    decreases segments.len(),
{
    let out = run_all(segments, passes, primary, refine);
    if segments.len() > 0 {
        let rest = segments.drop_first();
        assert forall|i: int|
            0 <= i < rest.len() implies (#[trigger] run_segment(
            rest[i],
            passes,
            primary,
            refine,
        )) is Some by {
            assert(rest[i] == segments[i + 1]);
        }
        lemma_run_to_completion(rest, passes, primary, refine);
        let t0 = run_segment(segments[0], passes, primary, refine)->Some_0;
        assert(out == seq![t0] + run_all(rest, passes, primary, refine));
        assert forall|i: int| 0 <= i < segments.len() implies #[trigger] out[i] == run_segment(
            segments[i],
            passes,
            primary,
            refine,
        )->Some_0 by {
            if i > 0 {
                assert(out[i] == run_all(rest, passes, primary, refine)[i - 1]);
                assert(rest[i - 1] == segments[i]);
            }
        }
    }
}

} // verus!
