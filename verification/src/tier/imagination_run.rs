//! One imagination, from its first model call to its verdict. The run decides what comes next; whoever
//! drives it makes the calls, does the arithmetic on scores and touches the files.

use vstd::prelude::*;
use crate::path;
use crate::score;
use crate::text;
use crate::tier;
use crate::tier::imagination_calls;
use crate::tier::imagination_calls::{
    AtomVerdict, AtomVerdictKind, FourDimensionScores, VerdictView,
};
use crate::tier::imagination_documents;
use crate::tier::imagination_documents::SweepMetaReview;
use crate::tier::imagination_evidence;
use crate::tier::imagination_evidence::{
    HypothesisView, ImaginationEvidenceRef, ImaginationHypothesis, RefView, ToolCall, ToolEvidence,
    ToolEvidenceView, WatchContext,
};
use crate::tier::imagination_files;
use crate::tier::tier3_auto_dream;
use crate::tier::tier3_auto_dream::LlmUsageWire;
use crate::tier::tier3_imagination;
use crate::tier::tier3_imagination::{
    GeneratedHypotheses, ImaginationProcessOutput, ImaginationReply, PromotionVerdict,
    HYPGEN_MAX_CANDIDATES,
};
use crate::tier::{LlmMessage, LlmUsage};

verus! {

/// Where a run stands.
#[derive(Debug, Clone, Copy, PartialEq, Eq, Structural)]
pub enum ImaginationStage {
    /// The plausibility of the hypothesis is to be scored.
    Plausibility,
    /// Evidence is to be gathered.
    Evidence,
    /// The hypothesis is to be scored along its dimensions.
    Dimensions,
    /// The next claim is to be verified.
    Claims,
    /// Every layer is done.
    Conclude,
}

/// The state of a run. A layer whose reply could not be read holds nothing.
#[derive(Debug)]
pub struct ImaginationRun {
    pub hypothesis: ImaginationHypothesis,
    pub watch: Option<WatchContext>,
    pub stage: ImaginationStage,
    pub l1: Option<u64>,
    pub external: Vec<ToolEvidence>,
    pub l2: Option<FourDimensionScores>,
    pub verdicts: Vec<AtomVerdict>,
    pub l3_any_parsed: bool,
    pub req_ids: Vec<String>,
    pub input_tokens: u32,
    pub output_tokens: u32,
}

pub struct ImagineView {
    pub hypothesis: HypothesisView,
    pub watch: Option<WatchContext>,
    pub stage: ImaginationStage,
    pub l1: Option<u64>,
    pub external: Seq<ToolEvidenceView>,
    pub l2: Option<FourDimensionScores>,
    pub verdicts: Seq<VerdictView>,
    pub l3_any_parsed: bool,
    pub req_ids: Seq<Seq<char>>,
    pub input_tokens: u32,
    pub output_tokens: u32,
}

impl View for ImaginationRun {
    type V = ImagineView;

    open spec fn view(&self) -> ImagineView {
        ImagineView {
            hypothesis: self.hypothesis@,
            watch: self.watch,
            stage: self.stage,
            l1: self.l1,
            external: imagination_evidence::tool_evidence_views(self.external@),
            l2: self.l2,
            verdicts: imagination_calls::verdict_views(self.verdicts@),
            l3_any_parsed: self.l3_any_parsed,
            req_ids: text::views(self.req_ids@),
            input_tokens: self.input_tokens,
            output_tokens: self.output_tokens,
        }
    }
}

/// The verdict on a claim about which nothing could be read.
pub open spec fn unread_verdict(atom: Seq<char>) -> VerdictView {
    VerdictView {
        atom,
        verdict: AtomVerdictKind::Inconclusive,
        confidence: score::ZERO,
        citing_evidence_ids: Seq::empty(),
    }
}

pub open spec fn opt_verdict_view(v: Option<AtomVerdict>) -> Option<VerdictView> {
    match v {
        Some(x) => Some(x@),
        None => None,
    }
}

impl ImagineView {
    /// What holds of every run: the verdicts are on the leading claims, in their order, and every call
    /// has an identifier. A verdict counts as read only where one was.
    pub open spec fn wf(self) -> bool {
        let atoms = self.hypothesis.atoms;
        &&& self.verdicts.len() <= atoms.len()
        &&& forall|i: int|
            0 <= i < self.verdicts.len() ==> (#[trigger] self.verdicts[i]).atom == atoms[i]
        &&& !self.l3_any_parsed ==> forall|i: int|
            0 <= i < self.verdicts.len() ==> #[trigger] self.verdicts[i] == unread_verdict(atoms[i])
        &&& match self.stage {
            ImaginationStage::Plausibility => self.l1 is None && self.l2 is None
                && self.verdicts.len() == 0 && !self.l3_any_parsed && self.req_ids.len() == 0,
            ImaginationStage::Evidence | ImaginationStage::Dimensions => self.l2 is None
                && self.verdicts.len() == 0 && !self.l3_any_parsed && self.req_ids.len() == 1,
            ImaginationStage::Claims => self.verdicts.len() < atoms.len() && self.req_ids.len() == 2
                + self.verdicts.len(),
            ImaginationStage::Conclude => self.verdicts.len() == atoms.len() && self.req_ids.len()
                == 2 + atoms.len(),
        }
    }

    /// With one more call made.
    pub open spec fn called(self, req_id: Seq<char>, usage: Option<LlmUsage>) -> ImagineView {
        let counted = match usage {
            Some(u) => ImagineView {
                input_tokens: tier3_auto_dream::capped_sum(self.input_tokens, u.input_tokens),
                output_tokens: tier3_auto_dream::capped_sum(self.output_tokens, u.output_tokens),
                ..self
            },
            None => self,
        };
        ImagineView { req_ids: self.req_ids.push(req_id), ..counted }
    }

    /// After the reply on the plausibility.
    pub open spec fn judged(self, parsed: Option<u64>) -> ImagineView {
        ImagineView { stage: ImaginationStage::Evidence, l1: parsed, ..self }
    }

    /// After evidence was gathered.
    pub open spec fn informed(self, external: Seq<ToolEvidenceView>) -> ImagineView {
        ImagineView { stage: ImaginationStage::Dimensions, external, ..self }
    }

    /// After the reply with the scores. Without a claim there is nothing to verify.
    pub open spec fn scored(self, parsed: Option<FourDimensionScores>) -> ImagineView {
        ImagineView {
            stage: if self.hypothesis.atoms.len() == 0 {
                ImaginationStage::Conclude
            } else {
                ImaginationStage::Claims
            },
            l2: parsed,
            ..self
        }
    }

    /// After the reply on the next claim.
    pub open spec fn verified(self, parsed: Option<VerdictView>) -> ImagineView {
        let atom = self.hypothesis.atoms[self.verdicts.len() as int];
        let verdict = match parsed {
            Some(v) => VerdictView { atom, ..v },
            None => unread_verdict(atom),
        };
        ImagineView {
            stage: if self.verdicts.len() + 1 < self.hypothesis.atoms.len() {
                ImaginationStage::Claims
            } else {
                ImaginationStage::Conclude
            },
            verdicts: self.verdicts.push(verdict),
            l3_any_parsed: self.l3_any_parsed || parsed is Some,
            ..self
        }
    }

    /// What claims are checked against: gathered evidence, or what the hypothesis quotes where there is
    /// none.
    pub open spec fn claim_refs(self) -> Seq<RefView> {
        if self.external.len() == 0 {
            self.hypothesis.evidence_refs
        } else {
            imagination_evidence::as_refs(self.external)
        }
    }

    /// Whether no layer could be read.
    pub open spec fn nothing_read(self) -> bool {
        self.l1 is None && self.l2 is None && !self.l3_any_parsed
    }

    /// The plausibility; one half where it could not be read.
    pub open spec fn plausibility(self) -> u64 {
        match self.l1 {
            Some(p) => p,
            None => score::HALF,
        }
    }

    /// The scores along the dimensions; neutral where they could not be read.
    pub open spec fn scores(self) -> FourDimensionScores {
        match self.l2 {
            Some(s) => s,
            None => imagination_calls::neutral_scores(),
        }
    }

    /// What becomes of the hypothesis once the fused score is known.
    pub open spec fn verdict(self, fused: u64) -> PromotionVerdict {
        tier3_imagination::verdict_for(self.nothing_read(), score::unit_clamped(fused))
    }
}

/// Every step of a run keeps what holds of every run.
pub proof fn steps_preserve_wf(
    v: ImagineView,
    req_id: Seq<char>,
    usage: Option<LlmUsage>,
    l1: Option<u64>,
    external: Seq<ToolEvidenceView>,
    l2: Option<FourDimensionScores>,
    verdict: Option<VerdictView>,
)
    requires
        v.wf(),
    ensures
        v.stage == ImaginationStage::Plausibility ==> v.called(req_id, usage).judged(l1).wf(),
        v.stage == ImaginationStage::Evidence ==> v.informed(external).wf(),
        v.stage == ImaginationStage::Dimensions ==> v.called(req_id, usage).scored(l2).wf(),
        v.stage == ImaginationStage::Claims ==> v.called(req_id, usage).verified(verdict).wf(),
{
    if v.stage == ImaginationStage::Claims {
        let w = v.called(req_id, usage).verified(verdict);
        let atoms = v.hypothesis.atoms;
        assert forall|i: int| 0 <= i < w.verdicts.len() implies (
        #[trigger] w.verdicts[i]).atom == atoms[i] by {
            if i < v.verdicts.len() {
                assert(w.verdicts[i] == v.verdicts[i]);
            }
        }
        if !w.l3_any_parsed {
            assert forall|i: int| 0 <= i < w.verdicts.len() implies #[trigger] w.verdicts[i]
                == unread_verdict(atoms[i]) by {
                if i < v.verdicts.len() {
                    assert(w.verdicts[i] == v.verdicts[i]);
                }
            }
        }
    }
}

/// A hypothesis about which no layer could be read is dropped, whatever its neutral scores add up to; one
/// layer that could be read is enough for the scores to decide.
pub proof fn unread_hypotheses_are_dropped(v: ImagineView, fused: u64)
    ensures
        v.nothing_read() ==> v.verdict(fused) == PromotionVerdict::Expired,
        !v.nothing_read() ==> v.verdict(fused) == tier3_imagination::verdict_for(
            false,
            score::unit_clamped(fused),
        ),
{
}

/// What is to be done once a run has come to its verdict.
#[derive(Debug, Clone)]
pub enum ImaginationDeed {
    /// A draft is to be written, with the given label.
    WriteDraft { path: String, label: String },
    /// The hypothesis is to be kept as a refuted one.
    WriteRefuted { path: String },
    /// It is to be noted that no layer could be read.
    NoteUnread,
}

/// How a run ended.
#[derive(Debug, Clone)]
pub struct ImaginationConclusion {
    pub final_confidence: u64,
    pub verdict: PromotionVerdict,
    pub deed: ImaginationDeed,
}

/// Whether this is how a run ends. `hash` is the name of its hypothesis.
pub open spec fn concludes(
    c: ImaginationConclusion,
    v: ImagineView,
    fused: u64,
    memory_dir: Seq<char>,
    queue: Seq<char>,
    hash: Seq<char>,
) -> bool {
    &&& c.final_confidence == score::unit_clamped(fused)
    &&& c.verdict == v.verdict(fused)
    &&& match v.verdict(fused) {
        PromotionVerdict::ReviewQueueHigh => c.deed matches ImaginationDeed::WriteDraft {
            path,
            label,
        } && path@ == path::under(queue, imagination_documents::imagined_name(hash)) && label@
            == "high"@,
        PromotionVerdict::Pending => c.deed matches ImaginationDeed::WriteDraft { path, label }
            && path@ == path::under(queue, imagination_documents::imagined_name(hash)) && label@
            == "medium"@,
        PromotionVerdict::Expired => if v.nothing_read() {
            c.deed is NoteUnread
        } else {
            c.deed matches ImaginationDeed::WriteRefuted { path } && path@ == path::under(
                refuted_directory(memory_dir),
                imagination_documents::refuted_name(hash),
            )
        },
    }
}

/// Where refuted hypotheses are kept.
pub open spec fn refuted_directory(memory_dir: Seq<char>) -> Seq<char> {
    path::under(
        path::under(memory_dir, "imagination"@),
        imagination_files::REFUTED_DIRNAME@,
    )
}

impl ImaginationRun {
    /// A run at its beginning.
    pub fn new(hypothesis: ImaginationHypothesis, watch: Option<WatchContext>) -> (r: Self)
        ensures
            r@ == (ImagineView {
                hypothesis: hypothesis@,
                watch,
                stage: ImaginationStage::Plausibility,
                l1: None,
                external: Seq::empty(),
                l2: None,
                verdicts: Seq::empty(),
                l3_any_parsed: false,
                req_ids: Seq::empty(),
                input_tokens: 0,
                output_tokens: 0,
            }),
            r@.wf(),
    {
        let r = ImaginationRun {
            hypothesis,
            watch,
            stage: ImaginationStage::Plausibility,
            l1: None,
            external: Vec::new(),
            l2: None,
            verdicts: Vec::new(),
            l3_any_parsed: false,
            req_ids: Vec::new(),
            input_tokens: 0,
            output_tokens: 0,
        };
        proof {
            assert(r@.external =~= Seq::empty());
            assert(r@.verdicts =~= Seq::empty());
            assert(r@.req_ids =~= Seq::empty());
        }
        r
    }

    fn count_call(&mut self, req_id: String, usage: Option<LlmUsage>)
        ensures
            final(self)@ == old(self)@.called(req_id@, usage),
    {
        proof {
            text::lemma_views_push(self.req_ids@, req_id);
        }
        self.req_ids.push(req_id);
        if let Some(u) = usage {
            self.input_tokens = self.input_tokens.saturating_add(u.input_tokens);
            self.output_tokens = self.output_tokens.saturating_add(u.output_tokens);
        }
    }

    /// The messages that ask for the plausibility.
    pub fn plausibility_messages(&self) -> (r: Vec<LlmMessage>)
        ensures
            tier::message_views(r@) == imagination_calls::l1_messages(self@.hypothesis),
    {
        imagination_calls::build_l1_messages(&self.hypothesis)
    }

    /// Takes in the plausibility that was read from the reply.
    pub fn record_plausibility(
        &mut self,
        req_id: String,
        usage: Option<LlmUsage>,
        parsed: Option<u64>,
    )
        requires
            old(self)@.wf(),
            old(self).stage == ImaginationStage::Plausibility,
        ensures
            final(self)@ == old(self)@.called(req_id@, usage).judged(parsed),
            final(self)@.wf(),
    {
        self.count_call(req_id, usage);
        self.l1 = parsed;
        self.stage = ImaginationStage::Evidence;
    }

    /// Takes in the reply on the plausibility.
    pub fn accept_plausibility(&mut self, reply: ImaginationReply)
        requires
            old(self)@.wf(),
            old(self).stage == ImaginationStage::Plausibility,
        ensures
            final(self)@ == old(self)@.called(reply.req_id@, reply.usage).judged(
                imagination_calls::plausibility_in(reply.response@),
            ),
            final(self)@.wf(),
    {
        let parsed = imagination_calls::parse_l1_json(reply.response.as_str());
        self.record_plausibility(reply.req_id, reply.usage, parsed);
    }

    /// The tool calls that gather evidence.
    pub fn evidence_calls(&self) -> (r: Vec<ToolCall>)
        ensures
            imagination_evidence::call_views(r@) == imagination_evidence::gather_calls(
                self@.hypothesis.statement,
                imagination_evidence::evidence_queries(self@.hypothesis.statement),
                self@.watch,
            ),
    {
        let queries = imagination_evidence::derive_evidence_queries(&self.hypothesis);
        imagination_evidence::calls_to_gather(
            self.hypothesis.statement.as_str(),
            queries,
            &self.watch,
        )
    }

    /// Takes in the evidence that was gathered.
    pub fn accept_evidence(&mut self, external: Vec<ToolEvidence>)
        requires
            old(self)@.wf(),
            old(self).stage == ImaginationStage::Evidence,
        ensures
            final(self)@ == old(self)@.informed(
                imagination_evidence::tool_evidence_views(external@),
            ),
            final(self)@.wf(),
    {
        self.external = external;
        self.stage = ImaginationStage::Dimensions;
    }

    /// The messages that ask for the scores along the dimensions.
    pub fn dimensions_messages(&self) -> (r: Vec<LlmMessage>)
        ensures
            tier::message_views(r@) == imagination_calls::l2_messages(
                self@.hypothesis,
                self@.external,
            ),
    {
        imagination_calls::build_l2_messages_with_evidence(&self.hypothesis, &self.external)
    }

    /// Takes in the scores that were read from the reply.
    pub fn record_dimensions(
        &mut self,
        req_id: String,
        usage: Option<LlmUsage>,
        parsed: Option<FourDimensionScores>,
    )
        requires
            old(self)@.wf(),
            old(self).stage == ImaginationStage::Dimensions,
        ensures
            final(self)@ == old(self)@.called(req_id@, usage).scored(parsed),
            final(self)@.wf(),
    {
        self.count_call(req_id, usage);
        self.l2 = parsed;
        assert(self@.hypothesis.atoms.len() == self.hypothesis.atoms@.len());
        self.stage = if self.hypothesis.atoms.len() == 0 {
            ImaginationStage::Conclude
        } else {
            ImaginationStage::Claims
        };
    }

    /// Takes in the reply with the scores.
    pub fn accept_dimensions(&mut self, reply: ImaginationReply)
        requires
            old(self)@.wf(),
            old(self).stage == ImaginationStage::Dimensions,
        ensures
            final(self)@ == old(self)@.called(reply.req_id@, reply.usage).scored(
                imagination_calls::dimensions_in(reply.response@),
            ),
            final(self)@.wf(),
    {
        let parsed = imagination_calls::parse_l2_json(reply.response.as_str());
        self.record_dimensions(reply.req_id, reply.usage, parsed);
    }

    /// What claims are checked against.
    pub fn claim_refs(&self) -> (r: Vec<ImaginationEvidenceRef>)
        ensures
            imagination_evidence::ref_views(r@) == self@.claim_refs(),
    {
        assert(self@.external.len() == self.external@.len());
        if self.external.len() == 0 {
            imagination_evidence::cloned_refs(&self.hypothesis.evidence_refs)
        } else {
            imagination_evidence::external_evidence_to_refs(&self.external)
        }
    }

    /// The messages that ask for a verdict on the next claim.
    pub fn claim_messages(&self) -> (r: Vec<LlmMessage>)
        requires
            self@.wf(),
            self.stage == ImaginationStage::Claims,
        ensures
            tier::message_views(r@) == imagination_calls::l3_messages(
                self@.hypothesis.atoms[self@.verdicts.len() as int],
                self@.claim_refs(),
            ),
    {
        assert(self@.verdicts.len() == self.verdicts@.len());
        assert(self@.hypothesis.atoms.len() == self.hypothesis.atoms@.len());
        let refs = self.claim_refs();
        imagination_calls::build_l3_messages(
            self.hypothesis.atoms[self.verdicts.len()].as_str(),
            &refs,
        )
    }

    /// Takes in the verdict that was read from the reply.
    pub fn record_claim(
        &mut self,
        req_id: String,
        usage: Option<LlmUsage>,
        parsed: Option<AtomVerdict>,
    )
        requires
            old(self)@.wf(),
            old(self).stage == ImaginationStage::Claims,
        ensures
            final(self)@ == old(self)@.called(req_id@, usage).verified(opt_verdict_view(parsed)),
            final(self)@.wf(),
    {
        let ghost before = self@;
        let ghost seen = opt_verdict_view(parsed);
        proof {
            steps_preserve_wf(before, req_id@, usage, None, Seq::empty(), None, seen);
        }
        self.count_call(req_id, usage);
        assert(self@.verdicts.len() == self.verdicts@.len());
        assert(self@.hypothesis.atoms.len() == self.hypothesis.atoms@.len());
        let next: usize = self.verdicts.len();
        let count: usize = self.hypothesis.atoms.len();
        let atom = self.hypothesis.atoms[next].clone();
        let ghost old_verdicts = self.verdicts@;
        let verdict = match parsed {
            Some(v) => {
                self.l3_any_parsed = true;
                AtomVerdict {
                    atom,
                    verdict: v.verdict,
                    confidence: v.confidence,
                    citing_evidence_ids: v.citing_evidence_ids,
                }
            },
            None => {
                let none: Vec<String> = Vec::new();
                assert(text::views(none@) =~= Seq::empty());
                AtomVerdict {
                    atom,
                    verdict: AtomVerdictKind::Inconclusive,
                    confidence: score::ZERO,
                    citing_evidence_ids: none,
                }
            },
        };
        self.verdicts.push(verdict);
        assert(imagination_calls::verdict_views(self.verdicts@)
            =~= imagination_calls::verdict_views(old_verdicts).push(verdict@));
        self.stage = if next + 1 < count {
            ImaginationStage::Claims
        } else {
            ImaginationStage::Conclude
        };
    }

    /// Takes in the reply on the next claim.
    pub fn accept_claim(&mut self, reply: ImaginationReply)
        requires
            old(self)@.wf(),
            old(self).stage == ImaginationStage::Claims,
        ensures
            final(self)@ == old(self)@.called(reply.req_id@, reply.usage).verified(
                imagination_calls::claim_verdict_in(reply.response@),
            ),
            final(self)@.wf(),
    {
        let parsed = imagination_calls::parse_l3_json(reply.response.as_str());
        self.record_claim(reply.req_id, reply.usage, parsed);
    }

    /// The plausibility, see [`ImagineView::plausibility`].
    pub fn plausibility(&self) -> (r: u64)
        ensures
            r == self@.plausibility(),
    {
        match self.l1 {
            Some(p) => p,
            None => score::HALF,
        }
    }

    /// The scores along the dimensions, see [`ImagineView::scores`].
    pub fn scores(&self) -> (r: FourDimensionScores)
        ensures
            r == self@.scores(),
    {
        match self.l2 {
            Some(s) => s,
            None => FourDimensionScores::neutral(),
        }
    }

    /// How the run ends, given the fused score and the name of the hypothesis. See [`concludes`].
    pub fn conclude_named(&self, fused: u64, memory_dir: &str, review_queue_dir: &str, hash: &str) -> (r:
        ImaginationConclusion)
        ensures
            concludes(r, self@, fused, memory_dir@, review_queue_dir@, hash@),
    {
        let final_confidence: u64 = score::clamp_unit(fused);
        let nothing_read = self.l1.is_none() && self.l2.is_none() && !self.l3_any_parsed;
        let verdict = tier3_imagination::promotion_verdict(nothing_read, final_confidence);
        let deed = match verdict {
            PromotionVerdict::Expired => if nothing_read {
                ImaginationDeed::NoteUnread
            } else {
                let dir = imagination_files::refuted_dir(memory_dir);
                let name = imagination_documents::refuted_file_name(hash);
                ImaginationDeed::WriteRefuted { path: path::child(dir.as_str(), name.as_str()) }
            },
            PromotionVerdict::ReviewQueueHigh => {
                let name = imagination_documents::imagined_file_name(hash);
                ImaginationDeed::WriteDraft {
                    path: path::child(review_queue_dir, name.as_str()),
                    label: "high".to_owned(),
                }
            },
            PromotionVerdict::Pending => {
                let name = imagination_documents::imagined_file_name(hash);
                ImaginationDeed::WriteDraft {
                    path: path::child(review_queue_dir, name.as_str()),
                    label: "medium".to_owned(),
                }
            },
        };
        ImaginationConclusion { final_confidence, verdict, deed }
    }

    /// How the run ends, given the fused score. See [`concludes`].
    pub fn conclude(&self, fused: u64, memory_dir: &str, review_queue_dir: &str) -> (r:
        ImaginationConclusion)
        ensures
            concludes(
                r,
                self@,
                fused,
                memory_dir@,
                review_queue_dir@,
                imagination_documents::statement_hash(self@.hypothesis.statement),
            ),
    {
        let hash = imagination_documents::hypothesis_hash(&self.hypothesis);
        self.conclude_named(fused, memory_dir, review_queue_dir, hash.as_str())
    }

    /// The report of a run that has come to its conclusion; the path is that of the draft, if one was
    /// written.
    pub fn finish(self, l3_atomic_aggregate: u64, conclusion: ImaginationConclusion) -> (r:
        ImaginationProcessOutput)
        ensures
            r.l1_plausibility == self@.plausibility(),
            r.l2_scores == self@.scores(),
            r.l3_atomic_aggregate == l3_atomic_aggregate,
            imagination_calls::verdict_views(r.l3_atom_verdicts@) == self@.verdicts,
            r.final_confidence == conclusion.final_confidence,
            r.verdict == conclusion.verdict,
            r.imagined_path == match conclusion.deed {
                ImaginationDeed::WriteDraft { path, label } => Some(path),
                _ => None,
            },
            text::views(r.req_ids@) == self@.req_ids,
            r.aggregate_usage == tier3_auto_dream::reported_usage(
                self@.input_tokens,
                self@.output_tokens,
            ),
    {
        let l1_plausibility: u64 = self.plausibility();
        let l2_scores = self.scores();
        let imagined_path = match conclusion.deed {
            ImaginationDeed::WriteDraft { path, label: _ } => Some(path),
            _ => None,
        };
        ImaginationProcessOutput {
            l1_plausibility,
            l2_scores,
            l3_atomic_aggregate,
            l3_atom_verdicts: self.verdicts,
            final_confidence: conclusion.final_confidence,
            verdict: conclusion.verdict,
            imagined_path,
            req_ids: self.req_ids,
            aggregate_usage: tier3_auto_dream::build_usage_wire(
                self.input_tokens,
                self.output_tokens,
            ),
        }
    }
}

/// A hypothesis has a draft exactly where it was not dropped.
pub proof fn drafts_are_written_for_what_is_kept(
    c: ImaginationConclusion,
    v: ImagineView,
    fused: u64,
    memory_dir: Seq<char>,
    queue: Seq<char>,
    hash: Seq<char>,
)
    requires
        concludes(c, v, fused, memory_dir, queue, hash),
    ensures
        c.deed is WriteDraft <==> c.verdict != PromotionVerdict::Expired,
        c.deed is NoteUnread <==> v.nothing_read(),
{
}

// ---------------------------------------------------------------------------
// Sweeps
// ---------------------------------------------------------------------------

/// The first of the hypotheses, as many as go through the layers.
pub open spec fn first_candidates(hs: Seq<HypothesisView>) -> Seq<HypothesisView> {
    if hs.len() > HYPGEN_MAX_CANDIDATES {
        hs.take(HYPGEN_MAX_CANDIDATES as int)
    } else {
        hs
    }
}

/// What a reply generated under the given variant of the prompt. See [`first_candidates`].
pub fn generated_hypotheses(reply: ImaginationReply, variant_id: String) -> (r: GeneratedHypotheses)
    ensures
        imagination_evidence::hypothesis_views(r.hypotheses@) == first_candidates(
            imagination_calls::generated_in(reply.response@),
        ),
        r.hypotheses@.len() <= HYPGEN_MAX_CANDIDATES,
        r.req_id == reply.req_id,
        r.variant_id == variant_id,
        r.aggregate_usage == match reply.usage {
            Some(u) => Some(
                LlmUsageWire { input_tokens: u.input_tokens, output_tokens: u.output_tokens },
            ),
            None => None,
        },
{
    let parsed = imagination_calls::parse_hypgen_json(reply.response.as_str());
    let ghost all = imagination_evidence::hypothesis_views(parsed@);
    let hypotheses = candidates(parsed);
    assert(imagination_evidence::hypothesis_views(hypotheses@) =~= first_candidates(all));
    let aggregate_usage = match reply.usage {
        Some(u) => Some(
            LlmUsageWire { input_tokens: u.input_tokens, output_tokens: u.output_tokens },
        ),
        None => None,
    };
    GeneratedHypotheses { hypotheses, req_id: reply.req_id, aggregate_usage, variant_id }
}

/// The hypotheses of a generation that are scored: the first ones.
pub fn candidates(generated: Vec<ImaginationHypothesis>) -> (r: Vec<ImaginationHypothesis>)
    ensures
        r@ == if generated@.len() > HYPGEN_MAX_CANDIDATES {
            generated@.take(HYPGEN_MAX_CANDIDATES as int)
        } else {
            generated@
        },
        generated@.len() <= 5 ==> r@ == generated@,
        generated@.len() > 5 ==> r@ == generated@.take(5),
{
    let mut out = generated;
    if out.len() > HYPGEN_MAX_CANDIDATES {
        out.truncate(HYPGEN_MAX_CANDIDATES);
    }
    out
}

/// How many of the first `n` outputs have the given verdict.
pub open spec fn with_verdict(
    outputs: Seq<ImaginationProcessOutput>,
    verdict: PromotionVerdict,
    n: int,
) -> nat
    decreases n,
{
    if n <= 0 {
        0
    } else if outputs[n - 1].verdict == verdict {
        with_verdict(outputs, verdict, n - 1) + 1
    } else {
        with_verdict(outputs, verdict, n - 1)
    }
}

fn count_verdict(outputs: &Vec<ImaginationProcessOutput>, verdict: PromotionVerdict) -> (r: usize)
    ensures
        r == with_verdict(outputs@, verdict, outputs@.len() as int),
        r <= outputs@.len(),
{
    let mut n: usize = 0;
    let mut i: usize = 0;
    while i < outputs.len()
        invariant
            i <= outputs@.len(),
            n <= i,
            n == with_verdict(outputs@, verdict, i as int),
        decreases outputs@.len() - i,
    {
        if outputs[i].verdict == verdict {
            n = n + 1;
        }
        i = i + 1;
    }
    n
}

/// What came of a sweep, as the ledger keeps it.
pub fn sweep_review(outputs: &Vec<ImaginationProcessOutput>, now_ms: u64) -> (r: SweepMetaReview)
    ensures
        r.ts_ms == now_ms,
        r.candidates == outputs@.len(),
        r.queued_high == with_verdict(
            outputs@,
            PromotionVerdict::ReviewQueueHigh,
            outputs@.len() as int,
        ),
        r.queued_medium == with_verdict(
            outputs@,
            PromotionVerdict::Pending,
            outputs@.len() as int,
        ),
        r.expired == with_verdict(outputs@, PromotionVerdict::Expired, outputs@.len() as int),
{
    SweepMetaReview {
        ts_ms: now_ms,
        candidates: outputs.len(),
        queued_high: count_verdict(outputs, PromotionVerdict::ReviewQueueHigh),
        queued_medium: count_verdict(outputs, PromotionVerdict::Pending),
        expired: count_verdict(outputs, PromotionVerdict::Expired),
    }
}

/// How many of the first `n` outputs count as wins, or as losses.
pub open spec fn with_outcome(
    outputs: Seq<ImaginationProcessOutput>,
    won: bool,
    n: int,
) -> nat
    decreases n,
{
    if n <= 0 {
        0
    } else if tier3_imagination::outcome_of_verdict(outputs[n - 1].verdict) == Some(won) {
        with_outcome(outputs, won, n - 1) + 1
    } else {
        with_outcome(outputs, won, n - 1)
    }
}

/// The wins and the losses of the variant of the prompt that the outputs came of.
pub fn variant_tally(outputs: &Vec<ImaginationProcessOutput>) -> (r: (u64, u64))
    ensures
        r.0 == with_outcome(outputs@, true, outputs@.len() as int),
        r.1 == with_outcome(outputs@, false, outputs@.len() as int),
{
    let mut wins: u64 = 0;
    let mut losses: u64 = 0;
    let mut i: usize = 0;
    while i < outputs.len()
        invariant
            i <= outputs@.len(),
            wins <= i,
            losses <= i,
            wins == with_outcome(outputs@, true, i as int),
            losses == with_outcome(outputs@, false, i as int),
        decreases outputs@.len() - i,
    {
        match tier3_imagination::verdict_outcome(outputs[i].verdict) {
            Some(true) => {
                wins = wins + 1;
            },
            Some(false) => {
                losses = losses + 1;
            },
            None => {},
        }
        i = i + 1;
    }
    (wins, losses)
}

/// Every output of a sweep is counted once, and the variant wins with what is queued first and loses with
/// what is dropped.
pub proof fn sweeps_count_everything_once(outputs: Seq<ImaginationProcessOutput>, n: int)
    requires
        0 <= n <= outputs.len(),
    ensures
        with_verdict(outputs, PromotionVerdict::ReviewQueueHigh, n) + with_verdict(
            outputs,
            PromotionVerdict::Pending,
            n,
        ) + with_verdict(outputs, PromotionVerdict::Expired, n) == n,
        with_outcome(outputs, true, n) == with_verdict(
            outputs,
            PromotionVerdict::ReviewQueueHigh,
            n,
        ),
        with_outcome(outputs, false, n) == with_verdict(outputs, PromotionVerdict::Expired, n),
    decreases n,
{
    if n > 0 {
        sweeps_count_everything_once(outputs, n - 1);
    }
}

// ---------------------------------------------------------------------------
// What a run promises
// ---------------------------------------------------------------------------

/// A verdict that was read is kept as it was read, on the claim that was asked about: what it says, how sure it is, and
/// what it cites. A claim about which nothing could be read is inconclusive, with no confidence. No other verdict changes.
pub proof fn verdicts_are_kept_with_their_claims(v: ImagineView, parsed: Option<VerdictView>)
    requires
        v.wf(),
        v.stage == ImaginationStage::Claims,
    ensures
        ({
            let after = v.verified(parsed);
            let n = v.verdicts.len() as int;
            let last = after.verdicts[n];
            &&& after.verdicts.len() == n + 1
            &&& after.verdicts.take(n) == v.verdicts
            &&& last.atom == v.hypothesis.atoms[n]
            &&& parsed matches Some(p) ==> last.verdict == p.verdict && last.confidence
                == p.confidence && last.citing_evidence_ids == p.citing_evidence_ids
            &&& parsed is None ==> last.verdict == AtomVerdictKind::Inconclusive && last.confidence
                == 0 && last.citing_evidence_ids.len() == 0
            &&& after.l3_any_parsed <==> v.l3_any_parsed || parsed is Some
            &&& after.stage == (if n + 1 == v.hypothesis.atoms.len() {
                ImaginationStage::Conclude
            } else {
                ImaginationStage::Claims
            })
            &&& after.l1 == v.l1
            &&& after.l2 == v.l2
            &&& after.external == v.external
            &&& after.hypothesis == v.hypothesis
        }),
{
    let after = v.verified(parsed);
    assert(after.verdicts.take(v.verdicts.len() as int) =~= v.verdicts);
}

/// Each layer keeps what was read in it, and nothing of the others changes.
pub proof fn layers_keep_what_was_read(
    v: ImagineView,
    l1: Option<u64>,
    external: Seq<ToolEvidenceView>,
    l2: Option<FourDimensionScores>,
)
    ensures
        v.judged(l1) == (ImagineView { l1, stage: ImaginationStage::Evidence, ..v }),
        v.informed(external) == (ImagineView { external, stage: ImaginationStage::Dimensions, ..v }),
        v.scored(l2).l2 == l2,
        v.scored(l2).stage == (if v.hypothesis.atoms.len() > 0 {
            ImaginationStage::Claims
        } else {
            ImaginationStage::Conclude
        }),
        v.scored(l2).l1 == v.l1 && v.scored(l2).external == v.external && v.scored(l2).verdicts
            == v.verdicts,
        v.l1 matches Some(p) ==> v.plausibility() == p,
        v.l1 is None ==> v.plausibility() == 0x3FE0_0000_0000_0000u64,
        v.l2 matches Some(s) ==> v.scores() == s,
        v.l2 is None ==> v.scores().novelty == 0x3FE0_0000_0000_0000u64 && v.scores().consistency
            == 0x3FE0_0000_0000_0000u64 && v.scores().groundedness == 0x3FE0_0000_0000_0000u64
            && v.scores().actionability == 0x3FE0_0000_0000_0000u64,
{
}

/// Nothing was read exactly where no layer, and no claim, could be.
pub proof fn one_readable_layer_is_enough(v: ImagineView)
    requires
        v.wf(),
    ensures
        v.l1 is Some || v.l2 is Some ==> !v.nothing_read(),
        v.l3_any_parsed ==> !v.nothing_read(),
        v.l1 is None && v.l2 is None && !v.l3_any_parsed ==> v.nothing_read(),
        (exists|i: int|
            0 <= i < v.verdicts.len() && (#[trigger] v.verdicts[i]).verdict
                != AtomVerdictKind::Inconclusive) ==> !v.nothing_read(),
{
}

/// Claims are checked against what was gathered; only where nothing was, against what the hypothesis quotes.
pub proof fn claims_are_checked_against_gathered_evidence(v: ImagineView)
    ensures
        v.external.len() == 0 ==> v.claim_refs() == v.hypothesis.evidence_refs,
        v.external.len() > 0 ==> v.claim_refs().len() == v.external.len(),
        v.external.len() > 0 ==> forall|i: int|
            0 <= i < v.external.len() ==> (#[trigger] v.claim_refs()[i]).id
                == v.external[i].source_url,
{
}

/// Every call is reported, in order, and its tokens are counted; nothing else changes with it.
pub proof fn calls_are_reported_in_order(v: ImagineView, req_id: Seq<char>, usage: Option<LlmUsage>)
    ensures
        ({
            let after = v.called(req_id, usage);
            &&& after.req_ids == v.req_ids.push(req_id)
            &&& after.l1 == v.l1 && after.l2 == v.l2 && after.verdicts == v.verdicts && after.stage
                == v.stage && after.external == v.external && after.hypothesis == v.hypothesis
            &&& usage is None ==> after.input_tokens == v.input_tokens && after.output_tokens
                == v.output_tokens
            &&& usage matches Some(u) ==> {
                &&& v.input_tokens + u.input_tokens <= u32::MAX ==> after.input_tokens
                    == v.input_tokens + u.input_tokens
                &&& v.output_tokens + u.output_tokens <= u32::MAX ==> after.output_tokens
                    == v.output_tokens + u.output_tokens
            }
        }),
{
}

/// How a run ends goes by its fused confidence, kept within [0, 1]: from 0.7 on a draft of high confidence is queued, from 0.5
/// on one of medium confidence, and below that the hypothesis is kept as a refuted one. One about which nothing could be read
/// is only noted.
pub proof fn runs_end_by_their_confidence(
    c: ImaginationConclusion,
    v: ImagineView,
    fused: u64,
    memory_dir: Seq<char>,
    queue: Seq<char>,
    hash: Seq<char>,
)
    requires
        concludes(c, v, fused, memory_dir, queue, hash),
    ensures
        fused <= 0x3FF0_0000_0000_0000 ==> c.final_confidence == fused,
        0x3FF0_0000_0000_0000 <= fused <= 0x7FF0_0000_0000_0000 ==> c.final_confidence
            == 0x3FF0_0000_0000_0000u64,
        !v.nothing_read() && 0x3FE6_6666_6666_6666 <= fused <= 0x7FF0_0000_0000_0000 ==> {
            &&& c.verdict == PromotionVerdict::ReviewQueueHigh
            &&& c.deed matches ImaginationDeed::WriteDraft { path, label }
            &&& label@ == "high"@
            &&& path@ == path::under(queue, "imagined_"@ + hash + ".md"@)
        },
        !v.nothing_read() && 0x3FE0_0000_0000_0000 <= fused < 0x3FE6_6666_6666_6666 ==> {
            &&& c.verdict == PromotionVerdict::Pending
            &&& c.deed matches ImaginationDeed::WriteDraft { path, label }
            &&& label@ == "medium"@
            &&& path@ == path::under(queue, "imagined_"@ + hash + ".md"@)
        },
        !v.nothing_read() && fused < 0x3FE0_0000_0000_0000 ==> {
            &&& c.verdict == PromotionVerdict::Expired
            &&& c.deed matches ImaginationDeed::WriteRefuted { path }
            &&& path@ == path::under(
                path::under(path::under(memory_dir, "imagination"@), "refuted"@),
                "refuted_"@ + hash + ".md"@,
            )
        },
        v.nothing_read() ==> c.verdict == PromotionVerdict::Expired && c.deed is NoteUnread,
{
}

/// Of what is generated the first five go on, in their order.
pub proof fn the_first_five_are_scored(hs: Seq<HypothesisView>)
    ensures
        hs.len() <= 5 ==> first_candidates(hs) == hs,
        hs.len() > 5 ==> first_candidates(hs) == hs.take(5),
{
}

proof fn lemma_counts_grow(
    outputs: Seq<ImaginationProcessOutput>,
    o: ImaginationProcessOutput,
    verdict: PromotionVerdict,
    won: bool,
    n: int,
)
    requires
        0 <= n <= outputs.len(),
    ensures
        with_verdict(outputs.push(o), verdict, n) == with_verdict(outputs, verdict, n),
        with_outcome(outputs.push(o), won, n) == with_outcome(outputs, won, n),
    decreases n,
{
    if n > 0 {
        lemma_counts_grow(outputs, o, verdict, won, n - 1);
        assert(outputs.push(o)[n - 1] == outputs[n - 1]);
    }
}

/// One output more of a sweep counts for its own verdict and for no other; it is a win where it is queued first, and a loss
/// where it was dropped.
pub proof fn outputs_count_for_their_verdict(
    outputs: Seq<ImaginationProcessOutput>,
    o: ImaginationProcessOutput,
    verdict: PromotionVerdict,
    won: bool,
)
    ensures
        ({
            let n = outputs.len() as int;
            let more = outputs.push(o);
            &&& with_verdict(more, verdict, n + 1) == with_verdict(outputs, verdict, n) + (
            if o.verdict == verdict {
                1nat
            } else {
                0nat
            })
            &&& with_outcome(more, won, n + 1) == with_outcome(outputs, won, n) + (if won
                && o.verdict == PromotionVerdict::ReviewQueueHigh || !won && o.verdict
                == PromotionVerdict::Expired {
                1nat
            } else {
                0nat
            })
            &&& with_verdict(outputs, verdict, 0) == 0
            &&& with_outcome(outputs, won, 0) == 0
        }),
{
    lemma_counts_grow(outputs, o, verdict, won, outputs.len() as int);
}

} // verus!
