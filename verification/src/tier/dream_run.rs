//! One dream, from its first model call to its report. The run decides what comes next; whoever drives
//! it makes the calls and touches the files.

use vstd::prelude::*;
use crate::digest;
use crate::json;
use crate::path;
use crate::text;
use crate::tier;
use crate::tier::dream_calls;
use crate::tier::dream_calls::{
    DreamFileScan, EvidenceView, Phase0Reflection, Phase1Theme, Phase2Evidence, Phase3Block,
    Phase3View, ReflectionView, ThemeView,
};
use crate::tier::dream_files;
use crate::tier::tier3_auto_dream;
use crate::tier::tier3_auto_dream::{DreamProcessOutput, DreamReply, DreamTally};
use crate::tier::{LlmMessage, LlmUsage};

verus! {

/// Where a run stands.
#[derive(Debug, Clone, Copy, PartialEq, Eq, Structural)]
pub enum DreamStage {
    /// Prior insights are to be reflected on.
    Reflect,
    /// Themes are to be found.
    Orient,
    /// Evidence for the current theme is to be gathered.
    Gather,
    /// The current theme is to be consolidated.
    Consolidate,
    /// What came of the current theme is to be stored.
    Store,
    /// Fragments are to be pruned.
    Prune,
}

/// The phase that a stage belongs to.
pub open spec fn phase_of(stage: DreamStage) -> Seq<char> {
    match stage {
        DreamStage::Reflect => "phase0"@,
        DreamStage::Orient => "phase1"@,
        DreamStage::Gather => "phase2"@,
        DreamStage::Consolidate | DreamStage::Store => "phase3"@,
        DreamStage::Prune => "phase4"@,
    }
}

impl DreamStage {
    /// See [`phase_of`].
    pub fn phase(&self) -> (r: &'static str)
        ensures
            r@ == phase_of(*self),
    {
        match self {
            DreamStage::Reflect => "phase0",
            DreamStage::Orient => "phase1",
            DreamStage::Gather => "phase2",
            DreamStage::Consolidate | DreamStage::Store => "phase3",
            DreamStage::Prune => "phase4",
        }
    }
}

/// A memory that came of a theme.
#[derive(Debug, Clone)]
pub struct DreamCandidate {
    pub path: String,
    pub content: String,
    pub is_fragment: bool,
}

pub struct CandidateView {
    pub path: Seq<char>,
    pub content: Seq<char>,
    pub is_fragment: bool,
}

impl View for DreamCandidate {
    type V = CandidateView;

    open spec fn view(&self) -> CandidateView {
        CandidateView {
            path: self.path@,
            content: self.content@,
            is_fragment: self.is_fragment,
        }
    }
}

/// The state of a run.
#[derive(Debug)]
pub struct DreamRun {
    pub memory_dir: String,
    pub sessions: String,
    pub manifest: String,
    /// What is put behind the prompt of a synthesis.
    pub addendum: String,
    pub stage: DreamStage,
    pub reflection: Phase0Reflection,
    pub themes: Vec<Phase1Theme>,
    pub next_theme: usize,
    pub evidence: Vec<Phase2Evidence>,
    pub candidate: Option<DreamCandidate>,
    pub tally: DreamTally,
    pub req_ids: Vec<String>,
    pub insight_paths: Vec<String>,
    pub fragment_paths: Vec<String>,
}

pub struct RunView {
    pub memory_dir: Seq<char>,
    pub sessions: Seq<char>,
    pub manifest: Seq<char>,
    pub addendum: Seq<char>,
    pub stage: DreamStage,
    pub reflection: ReflectionView,
    pub themes: Seq<ThemeView>,
    pub next_theme: int,
    pub evidence: Seq<EvidenceView>,
    pub candidate: Option<CandidateView>,
    pub tally: DreamTally,
    pub req_ids: Seq<Seq<char>>,
    pub insight_paths: Seq<Seq<char>>,
    pub fragment_paths: Seq<Seq<char>>,
}

impl View for DreamRun {
    type V = RunView;

    open spec fn view(&self) -> RunView {
        RunView {
            memory_dir: self.memory_dir@,
            sessions: self.sessions@,
            manifest: self.manifest@,
            addendum: self.addendum@,
            stage: self.stage,
            reflection: self.reflection@,
            themes: dream_calls::theme_views(self.themes@),
            next_theme: self.next_theme as int,
            evidence: dream_calls::evidence_views(self.evidence@),
            candidate: match self.candidate {
                Some(c) => Some(c@),
                None => None,
            },
            tally: self.tally,
            req_ids: text::views(self.req_ids@),
            insight_paths: text::views(self.insight_paths@),
            fragment_paths: text::views(self.fragment_paths@),
        }
    }
}

impl RunView {
    /// What holds of every run: a theme is consolidated only on evidence, at most one memory comes of
    /// each theme, and none without a consolidation.
    pub open spec fn wf(self) -> bool {
        &&& 0 <= self.next_theme <= self.themes.len()
        &&& match self.stage {
            DreamStage::Reflect | DreamStage::Orient => self.themes.len() == 0,
            DreamStage::Gather => self.next_theme < self.themes.len(),
            DreamStage::Consolidate => self.next_theme < self.themes.len() && self.evidence.len()
                > 0,
            DreamStage::Store => self.next_theme < self.themes.len() && self.candidate is Some
                && self.tally.phase3_calls > 0,
            DreamStage::Prune => self.next_theme == self.themes.len(),
        }
        &&& self.insight_paths.len() + self.fragment_paths.len() <= self.next_theme
        &&& self.tally.phase3_calls == 0 ==> self.insight_paths.len() == 0
            && self.fragment_paths.len() == 0
    }

    /// With one more call made.
    pub open spec fn called(self, req_id: Seq<char>, usage: Option<LlmUsage>) -> RunView {
        RunView {
            req_ids: self.req_ids.push(req_id),
            tally: tier3_auto_dream::with_usage(self.tally, usage),
            ..self
        }
    }

    /// On to the next theme, or to pruning behind the last one.
    pub open spec fn advanced(self) -> RunView {
        RunView {
            stage: if self.next_theme + 1 < self.themes.len() {
                DreamStage::Gather
            } else {
                DreamStage::Prune
            },
            next_theme: self.next_theme + 1,
            evidence: Seq::empty(),
            candidate: None,
            ..self
        }
    }

    pub open spec fn failed_to_parse(self) -> RunView {
        RunView { tally: tier3_auto_dream::with_parse_failure(self.tally), ..self }
    }

    /// After the reply to the reflection; what cannot be read counts as an empty reflection.
    pub open spec fn reflected(self, parsed: Option<ReflectionView>) -> RunView {
        match parsed {
            Some(reflection) => RunView { stage: DreamStage::Orient, reflection, ..self },
            None => RunView {
                stage: DreamStage::Orient,
                reflection: dream_calls::empty_reflection(),
                ..self.failed_to_parse()
            },
        }
    }

    /// After the reply with the themes; without a theme, pruning comes next.
    pub open spec fn oriented(self, parsed: Option<Seq<ThemeView>>) -> RunView {
        match parsed {
            Some(themes) => RunView {
                stage: if themes.len() == 0 {
                    DreamStage::Prune
                } else {
                    DreamStage::Gather
                },
                themes,
                next_theme: 0,
                ..self
            },
            None => RunView {
                stage: DreamStage::Prune,
                themes: Seq::empty(),
                next_theme: 0,
                ..self.failed_to_parse()
            },
        }
    }

    /// After the reply with the evidence for a theme. A theme without evidence is left behind: it counts as
    /// skipped where the reply says that there is none, and as a failure where the reply cannot be read.
    pub open spec fn gathered(self, parsed: Option<Seq<EvidenceView>>) -> RunView {
        match parsed {
            Some(evidence) => if evidence.len() > 0 {
                RunView { stage: DreamStage::Consolidate, evidence, ..self }
            } else {
                RunView {
                    tally: tier3_auto_dream::with_skipped_theme(self.tally),
                    ..self
                }.advanced()
            },
            None => self.failed_to_parse().advanced(),
        }
    }

    /// The memory that a consolidated theme becomes; one of low confidence is a fragment.
    pub open spec fn candidate_for(self, block: Phase3View, theme_digest: Seq<u8>) -> CandidateView {
        let is_fragment = block.confidence == "low"@;
        let prefix = if is_fragment {
            "fragment_"@
        } else {
            "insight_"@
        };
        CandidateView {
            path: path::under(
                path::under(self.memory_dir, "dreams"@),
                dream_files::theme_file(prefix, self.themes[self.next_theme].id, theme_digest),
            ),
            content: block.full_content,
            is_fragment,
        }
    }

    /// After the reply with the consolidated theme.
    pub open spec fn consolidated(
        self,
        parsed: Option<Phase3View>,
        theme_digest: Seq<u8>,
    ) -> RunView {
        let counted = RunView { tally: tier3_auto_dream::with_phase3_call(self.tally), ..self };
        match parsed {
            Some(block) => RunView {
                stage: DreamStage::Store,
                candidate: Some(self.candidate_for(block, theme_digest)),
                ..counted
            },
            None => counted.failed_to_parse().advanced(),
        }
    }

    /// After the memory was written, or found redundant.
    pub open spec fn stored(self, redundant: bool) -> RunView {
        let c = self.candidate->0;
        if redundant {
            self.advanced()
        } else if c.is_fragment {
            RunView { fragment_paths: self.fragment_paths.push(c.path), ..self }.advanced()
        } else {
            RunView { insight_paths: self.insight_paths.push(c.path), ..self }.advanced()
        }
    }

    /// The phases that were run. The synthesis is among them only where it was run for some theme.
    pub open spec fn phases(self) -> Seq<Seq<char>> {
        let first = seq![phase_of(DreamStage::Reflect), phase_of(DreamStage::Orient)];
        let second = if self.themes.len() == 0 {
            first
        } else if self.tally.phase3_calls > 0 {
            first.push(phase_of(DreamStage::Gather)).push(phase_of(DreamStage::Consolidate))
        } else {
            first.push(phase_of(DreamStage::Gather))
        };
        second.push(phase_of(DreamStage::Prune))
    }
}

/// The digest by which the file of a theme is told apart.
pub open spec fn theme_digest(id: Seq<char>) -> Seq<u8> {
    digest::sha256_of(vstd::utf8::encode_utf8(id))
}

/// Every step of a run keeps what holds of every run.
pub proof fn steps_preserve_wf(
    v: RunView,
    req_id: Seq<char>,
    usage: Option<LlmUsage>,
    reflection: Option<ReflectionView>,
    themes: Option<Seq<ThemeView>>,
    evidence: Option<Seq<EvidenceView>>,
    block: Option<Phase3View>,
    digest: Seq<u8>,
    redundant: bool,
)
    requires
        v.wf(),
    ensures
        v.called(req_id, usage).wf(),
        v.stage == DreamStage::Reflect ==> v.reflected(reflection).wf(),
        v.stage == DreamStage::Orient ==> v.oriented(themes).wf(),
        v.stage == DreamStage::Gather ==> v.gathered(evidence).wf(),
        v.stage == DreamStage::Consolidate ==> v.consolidated(block, digest).wf(),
        v.stage == DreamStage::Store ==> v.stored(redundant).wf(),
{
}

/// No evidence, no output: a theme for which nothing was gathered is not consolidated, and no memory
/// comes of it.
pub proof fn no_output_without_evidence(v: RunView, evidence: Option<Seq<EvidenceView>>)
    requires
        v.wf(),
        v.stage == DreamStage::Gather,
        evidence is None || evidence->0.len() == 0,
    ensures
        v.gathered(evidence).stage != DreamStage::Consolidate,
        v.gathered(evidence).tally.phase3_calls == v.tally.phase3_calls,
        v.gathered(evidence).insight_paths == v.insight_paths,
        v.gathered(evidence).fragment_paths == v.fragment_paths,
        v.gathered(evidence).next_theme == v.next_theme + 1,
{
}

/// A theme whose reply held no evidence and one whose reply could not be read are told apart: each is counted once,
/// and in its own count only.
pub proof fn skips_and_failures_are_told_apart(v: RunView, evidence: Option<Seq<EvidenceView>>)
    requires
        v.stage == DreamStage::Gather,
        v.tally.themes_skipped_no_evidence < u32::MAX,
        v.tally.parse_failures < u32::MAX,
    ensures
        v.gathered(evidence).tally.themes_skipped_no_evidence == if evidence is Some
            && evidence->0.len() == 0 {
            v.tally.themes_skipped_no_evidence + 1
        } else {
            v.tally.themes_skipped_no_evidence as int
        },
        v.gathered(evidence).tally.parse_failures == if evidence is None {
            v.tally.parse_failures + 1
        } else {
            v.tally.parse_failures as int
        },
{
}

/// A run reports the synthesis as done exactly where it was run, and a run in which every theme was
/// skipped reports no memory.
pub proof fn phases_are_reported_honestly(v: RunView)
    requires
        v.wf(),
    ensures
        v.themes.len() > 0 ==> (v.phases().contains("phase3"@) <==> v.tally.phase3_calls > 0),
        v.tally.phase3_calls == 0 ==> v.insight_paths.len() == 0 && v.fragment_paths.len() == 0,
        v.phases().last() == "phase4"@,
{
    let p = v.phases();
    reveal_strlit("phase0");
    reveal_strlit("phase1");
    reveal_strlit("phase2");
    reveal_strlit("phase3");
    reveal_strlit("phase4");
    assert("phase0"@[5] == '0');
    assert("phase1"@[5] == '1');
    assert("phase2"@[5] == '2');
    assert("phase3"@[5] == '3');
    assert("phase4"@[5] == '4');
    if v.themes.len() > 0 && v.tally.phase3_calls > 0 {
        assert(p[3] == "phase3"@);
    }
}

impl DreamRun {
    /// A run at its beginning.
    pub fn new(memory_dir: String, sessions: String, manifest: String, addendum: String) -> (r: Self)
        ensures
            r@ == (RunView {
                memory_dir: memory_dir@,
                sessions: sessions@,
                manifest: manifest@,
                addendum: addendum@,
                stage: DreamStage::Reflect,
                reflection: dream_calls::empty_reflection(),
                themes: Seq::empty(),
                next_theme: 0,
                evidence: Seq::empty(),
                candidate: None,
                tally: DreamTally {
                    input_tokens: 0,
                    output_tokens: 0,
                    parse_failures: 0,
                    themes_skipped_no_evidence: 0,
                    phase3_calls: 0,
                },
                req_ids: Seq::empty(),
                insight_paths: Seq::empty(),
                fragment_paths: Seq::empty(),
            }),
            r@.wf(),
    {
        let r = DreamRun {
            memory_dir,
            sessions,
            manifest,
            addendum,
            stage: DreamStage::Reflect,
            reflection: Phase0Reflection::default(),
            themes: Vec::new(),
            next_theme: 0,
            evidence: Vec::new(),
            candidate: None,
            tally: DreamTally {
                input_tokens: 0,
                output_tokens: 0,
                parse_failures: 0,
                themes_skipped_no_evidence: 0,
                phase3_calls: 0,
            },
            req_ids: Vec::new(),
            insight_paths: Vec::new(),
            fragment_paths: Vec::new(),
        };
        proof {
            assert(r@.themes =~= Seq::empty());
            assert(r@.evidence =~= Seq::empty());
            assert(r@.req_ids =~= Seq::empty());
            assert(r@.insight_paths =~= Seq::empty());
            assert(r@.fragment_paths =~= Seq::empty());
        }
        r
    }

    fn count_call(&mut self, req_id: String, usage: Option<LlmUsage>)
        ensures
            final(self)@ == old(self)@.called(req_id@, usage),
    {
        proof {
            text::lemma_views_push(self.req_ids@, req_id);
        }
        self.req_ids.push(req_id);
        tier3_auto_dream::accumulate_usage(usage, &mut self.tally);
    }

    fn count_parse_failure(&mut self)
        ensures
            final(self)@ == old(self)@.failed_to_parse(),
    {
        self.tally.parse_failures = self.tally.parse_failures.saturating_add(1);
    }

    fn advance(&mut self)
        requires
            old(self)@.next_theme < old(self)@.themes.len(),
        ensures
            final(self)@ == old(self)@.advanced(),
    {
        let count: usize = self.themes.len();
        self.next_theme = self.next_theme + 1;
        self.evidence = Vec::new();
        self.candidate = None;
        self.stage = if self.next_theme < count {
            DreamStage::Gather
        } else {
            DreamStage::Prune
        };
        assert(self@.evidence =~= Seq::empty());
    }

    /// The messages of the reflection on prior insights.
    pub fn reflect_messages(&self, prior_insights: &Vec<DreamFileScan>) -> (r: Vec<LlmMessage>)
        ensures
            tier::message_views(r@) == dream_calls::phase0_messages(
                dream_calls::file_views(prior_insights@),
            ),
    {
        dream_calls::build_phase0_messages(prior_insights)
    }

    /// Takes in what was read from the reply to the reflection.
    pub fn record_reflection(
        &mut self,
        req_id: String,
        usage: Option<LlmUsage>,
        parsed: Option<Phase0Reflection>,
    )
        requires
            old(self)@.wf(),
            old(self).stage == DreamStage::Reflect,
        ensures
            final(self)@ == old(self)@.called(req_id@, usage).reflected(
                match parsed {
                    Some(x) => Some(x@),
                    None => None,
                },
            ),
            final(self)@.wf(),
    {
        self.count_call(req_id, usage);
        match parsed {
            Some(reflection) => {
                self.reflection = reflection;
            },
            None => {
                self.count_parse_failure();
                self.reflection = Phase0Reflection::default();
            },
        }
        self.stage = DreamStage::Orient;
    }

    /// Takes in the reply to the reflection; `false` where nothing could be read from it.
    pub fn accept_reflection(&mut self, reply: DreamReply) -> (r: bool)
        requires
            old(self)@.wf(),
            old(self).stage == DreamStage::Reflect,
        ensures
            ({
                let parsed = match dream_calls::lenient_json(reply.response@) {
                    Some(v) => Some(dream_calls::reflection_in(v)),
                    None => None,
                };
                &&& final(self)@ == old(self)@.called(reply.req_id@, reply.usage).reflected(parsed)
                &&& r == (parsed is Some)
            }),
            final(self)@.wf(),
    {
        let parsed = dream_calls::parse_phase0_json(reply.response.as_str());
        let readable = parsed.is_some();
        self.record_reflection(reply.req_id, reply.usage, parsed);
        readable
    }

    /// The messages that ask for themes.
    pub fn orient_messages(&self) -> (r: Vec<LlmMessage>)
        ensures
            tier::message_views(r@) == dream_calls::phase1_messages(
                self@.sessions,
                self@.manifest,
            ),
    {
        dream_calls::build_phase1_messages(self.sessions.as_str(), self.manifest.as_str())
    }

    /// Takes in the themes that were read from the reply.
    pub fn record_themes(
        &mut self,
        req_id: String,
        usage: Option<LlmUsage>,
        parsed: Option<Vec<Phase1Theme>>,
    )
        requires
            old(self)@.wf(),
            old(self).stage == DreamStage::Orient,
        ensures
            final(self)@ == old(self)@.called(req_id@, usage).oriented(
                match parsed {
                    Some(x) => Some(dream_calls::theme_views(x@)),
                    None => None,
                },
            ),
            final(self)@.wf(),
    {
        self.count_call(req_id, usage);
        match parsed {
            Some(themes) => {
                self.themes = themes;
            },
            None => {
                self.count_parse_failure();
                self.themes = Vec::new();
                assert(self@.themes =~= Seq::empty());
            },
        }
        self.next_theme = 0;
        self.stage = if self.themes.len() == 0 {
            DreamStage::Prune
        } else {
            DreamStage::Gather
        };
        assert(self@.themes.len() == self.themes@.len());
    }

    /// Takes in the reply with the themes; `false` where none could be read from it.
    pub fn accept_themes(&mut self, reply: DreamReply) -> (r: bool)
        requires
            old(self)@.wf(),
            old(self).stage == DreamStage::Orient,
        ensures
            ({
                let parsed = match dream_calls::lenient_json(reply.response@) {
                    Some(v) => dream_calls::themes_in(v),
                    None => None,
                };
                &&& final(self)@ == old(self)@.called(reply.req_id@, reply.usage).oriented(parsed)
                &&& r == (parsed is Some)
            }),
            final(self)@.wf(),
    {
        let parsed = dream_calls::parse_phase1_json(reply.response.as_str());
        let readable = parsed.is_some();
        self.record_themes(reply.req_id, reply.usage, parsed);
        readable
    }

    /// The messages that ask for the evidence of the current theme.
    pub fn gather_messages(&self) -> (r: Vec<LlmMessage>)
        requires
            self@.wf(),
            self.stage == DreamStage::Gather,
        ensures
            tier::message_views(r@) == dream_calls::phase2_messages(
                self@.themes[self@.next_theme].id,
                self@.themes[self@.next_theme].label,
                self@.sessions,
            ),
    {
        assert(self@.themes.len() == self.themes@.len());
        let theme = &self.themes[self.next_theme];
        dream_calls::build_phase2_messages(
            theme.id.as_str(),
            theme.label.as_str(),
            self.sessions.as_str(),
        )
    }

    /// Takes in the evidence that was read from the reply.
    pub fn record_evidence(
        &mut self,
        req_id: String,
        usage: Option<LlmUsage>,
        parsed: Option<Vec<Phase2Evidence>>,
    )
        requires
            old(self)@.wf(),
            old(self).stage == DreamStage::Gather,
        ensures
            final(self)@ == old(self)@.called(req_id@, usage).gathered(
                match parsed {
                    Some(x) => Some(dream_calls::evidence_views(x@)),
                    None => None,
                },
            ),
            final(self)@.wf(),
    {
        self.count_call(req_id, usage);
        match parsed {
            Some(evidence) => {
                assert(dream_calls::evidence_views(evidence@).len() == evidence@.len());
                if evidence.len() > 0 {
                    self.evidence = evidence;
                    self.stage = DreamStage::Consolidate;
                    return;
                }
                self.tally.themes_skipped_no_evidence =
                self.tally.themes_skipped_no_evidence.saturating_add(1);
            },
            None => {
                self.count_parse_failure();
            },
        }
        self.advance();
    }

    /// Takes in the reply with the evidence; `false` where none could be read from it.
    pub fn accept_evidence(&mut self, reply: DreamReply) -> (r: bool)
        requires
            old(self)@.wf(),
            old(self).stage == DreamStage::Gather,
        ensures
            ({
                let parsed = match dream_calls::lenient_json(reply.response@) {
                    Some(v) => dream_calls::evidence_in(v),
                    None => None,
                };
                &&& final(self)@ == old(self)@.called(reply.req_id@, reply.usage).gathered(parsed)
                &&& r == (parsed is Some)
            }),
            final(self)@.wf(),
    {
        let parsed = dream_calls::parse_phase2_json(reply.response.as_str());
        let readable = parsed.is_some();
        self.record_evidence(reply.req_id, reply.usage, parsed);
        readable
    }

    /// The messages that ask for the synthesis of the current theme; `weights` holds the weights of
    /// its evidence as they are shown.
    pub fn consolidate_messages(&self, weights: &Vec<String>) -> (r: Vec<LlmMessage>)
        requires
            self@.wf(),
            self.stage == DreamStage::Consolidate,
            weights@.len() == self@.evidence.len(),
        ensures
            tier::message_views(r@) == dream_calls::phase3_messages(
                self@.themes[self@.next_theme].id,
                self@.themes[self@.next_theme].label,
                self@.evidence,
                text::views(weights@),
                self@.addendum,
            ),
    {
        assert(self@.themes.len() == self.themes@.len());
        assert(self@.evidence.len() == self.evidence@.len());
        let theme = &self.themes[self.next_theme];
        dream_calls::build_phase3_messages(
            theme.id.as_str(),
            theme.label.as_str(),
            &self.evidence,
            weights,
            self.addendum.as_str(),
        )
    }

    /// Takes in the memory that was read from the reply, given the digest of the theme's identifier.
    pub fn record_block(
        &mut self,
        req_id: String,
        usage: Option<LlmUsage>,
        parsed: Option<Phase3Block>,
        digest: &Vec<u8>,
    )
        requires
            old(self)@.wf(),
            old(self).stage == DreamStage::Consolidate,
            digest@.len() >= 4,
        ensures
            final(self)@ == old(self)@.called(req_id@, usage).consolidated(
                match parsed {
                    Some(x) => Some(x@),
                    None => None,
                },
                digest@,
            ),
            final(self)@.wf(),
    {
        assert(self@.themes.len() == self.themes@.len());
        self.tally.phase3_calls = self.tally.phase3_calls.saturating_add(1);
        self.count_call(req_id, usage);
        match parsed {
            Some(block) => {
                let is_fragment = text::same(block.confidence.as_str(), "low");
                let prefix = if is_fragment {
                    "fragment_"
                } else {
                    "insight_"
                };
                let theme = &self.themes[self.next_theme];
                let name = dream_files::theme_filename_with(prefix, theme.id.as_str(), digest);
                let dir = path::child(self.memory_dir.as_str(), "dreams");
                let target = path::child(dir.as_str(), name.as_str());
                self.candidate = Some(
                    DreamCandidate { path: target, content: block.full_content, is_fragment },
                );
                self.stage = DreamStage::Store;
            },
            None => {
                self.count_parse_failure();
                self.advance();
            },
        }
    }

    /// Takes in the reply with the consolidated theme; `false` where no memory could be read from it.
    pub fn accept_block(&mut self, reply: DreamReply) -> (r: bool)
        requires
            old(self)@.wf(),
            old(self).stage == DreamStage::Consolidate,
        ensures
            ({
                let parsed = dream_calls::phase3_block(reply.response@);
                &&& final(self)@ == old(self)@.called(reply.req_id@, reply.usage).consolidated(
                    parsed,
                    theme_digest(old(self)@.themes[old(self)@.next_theme].id),
                )
                &&& r == (parsed is Some)
            }),
            final(self)@.wf(),
    {
        assert(self@.themes.len() == self.themes@.len());
        let parsed = dream_calls::parse_phase3_block(reply.response.as_str());
        let readable = parsed.is_some();
        let d = digest::sha256(self.themes[self.next_theme].id.as_str().as_bytes());
        self.record_block(reply.req_id, reply.usage, parsed, &d);
        readable
    }

    /// Takes in that the memory was written, or found redundant and not written.
    pub fn record_stored(&mut self, redundant: bool)
        requires
            old(self)@.wf(),
            old(self).stage == DreamStage::Store,
        ensures
            final(self)@ == old(self)@.stored(redundant),
            final(self)@.wf(),
    {
        if !redundant {
            if let Some(c) = &self.candidate {
                let p = c.path.clone();
                let fragment = c.is_fragment;
                if fragment {
                    proof {
                        text::lemma_views_push(self.fragment_paths@, p);
                    }
                    self.fragment_paths.push(p);
                } else {
                    proof {
                        text::lemma_views_push(self.insight_paths@, p);
                    }
                    self.insight_paths.push(p);
                }
            }
        }
        self.advance();
    }

    /// The messages that ask which fragments to delete; `None` where there is nothing to ask.
    pub fn prune_messages(&self, fragments: &Vec<DreamFileScan>, now_ms: u64) -> (r: Option<
        Vec<LlmMessage>,
    >)
        ensures
            ({
                let fs = dream_calls::file_views(fragments@);
                let stale = self@.reflection.stale_ids;
                if dream_files::asks_for_pruning(fs, stale, now_ms) {
                    r matches Some(m) && tier::message_views(m@) == dream_calls::phase4_messages(
                        json::string_array_text(stale),
                        fs,
                    )
                } else {
                    r is None
                }
            }),
    {
        if dream_files::wants_pruning_call(fragments, &self.reflection.stale_ids, now_ms) {
            let stale_json = dream_calls::ids_json_of(&self.reflection.stale_ids);
            Some(dream_calls::build_phase4_messages(stale_json.as_str(), fragments))
        } else {
            None
        }
    }

    /// The fragments to prune where the model was not asked.
    pub fn prune_by_age(&self, fragments: &Vec<DreamFileScan>, now_ms: u64) -> (r: Vec<
        DreamFileScan,
    >)
        ensures
            dream_calls::file_views(r@) == dream_files::aged(
                dream_calls::file_views(fragments@),
                now_ms,
            ),
    {
        dream_files::aged_fragments(fragments, now_ms)
    }

    /// Takes in the identifiers that were read from the reply, and returns the fragments to prune.
    pub fn record_prune(
        &mut self,
        req_id: String,
        usage: Option<LlmUsage>,
        parsed: Option<Vec<String>>,
        fragments: &Vec<DreamFileScan>,
        now_ms: u64,
    ) -> (r: Vec<DreamFileScan>)
        requires
            old(self)@.wf(),
            old(self).stage == DreamStage::Prune,
        ensures
            final(self)@ == (match parsed {
                Some(_) => old(self)@.called(req_id@, usage),
                None => old(self)@.called(req_id@, usage).failed_to_parse(),
            }),
            final(self)@.wf(),
            ({
                let fs = dream_calls::file_views(fragments@);
                dream_calls::file_views(r@) == dream_files::with_named(
                    fs,
                    dream_files::aged(fs, now_ms),
                    match parsed {
                        Some(ids) => text::views(ids@),
                        None => Seq::empty(),
                    },
                )
            }),
    {
        self.count_call(req_id, usage);
        let targets = dream_files::aged_fragments(fragments, now_ms);
        match parsed {
            Some(ids) => dream_files::prune_targets(fragments, targets, &ids),
            None => {
                self.count_parse_failure();
                targets
            },
        }
    }

    /// Takes in the reply on what to delete, and returns the fragments to prune together with whether
    /// anything could be read from it.
    pub fn accept_prune(
        &mut self,
        reply: DreamReply,
        fragments: &Vec<DreamFileScan>,
        now_ms: u64,
    ) -> (r: (Vec<DreamFileScan>, bool))
        requires
            old(self)@.wf(),
            old(self).stage == DreamStage::Prune,
        ensures
            final(self)@.wf(),
            ({
                let fs = dream_calls::file_views(fragments@);
                let parsed = match dream_calls::lenient_json(reply.response@) {
                    Some(v) => dream_calls::delete_ids_in(v),
                    None => None,
                };
                let called = old(self)@.called(reply.req_id@, reply.usage);
                &&& r.1 == (parsed is Some)
                &&& final(self)@ == (if parsed is Some {
                    called
                } else {
                    called.failed_to_parse()
                })
                &&& dream_calls::file_views(r.0@) == dream_files::with_named(
                    fs,
                    dream_files::aged(fs, now_ms),
                    match parsed {
                        Some(ids) => ids,
                        None => Seq::empty(),
                    },
                )
            }),
    {
        let parsed = dream_calls::parse_phase4_json(reply.response.as_str());
        let readable = parsed.is_some();
        let targets = self.record_prune(reply.req_id, reply.usage, parsed, fragments, now_ms);
        (targets, readable)
    }

    fn completed(&self) -> (r: Vec<String>)
        ensures
            text::views(r@) == self@.phases(),
    {
        assert(self@.themes.len() == self.themes@.len());
        let mut out: Vec<String> = Vec::new();
        out.push("phase0".to_owned());
        out.push("phase1".to_owned());
        if self.themes.len() > 0 {
            out.push("phase2".to_owned());
            if self.tally.phase3_calls > 0 {
                out.push("phase3".to_owned());
            }
        }
        out.push("phase4".to_owned());
        assert(text::views(out@) =~= self@.phases());
        out
    }

    /// The report of a run that has come to its end; `pruned_paths` are the fragments that were
    /// deleted.
    pub fn finish(self, pruned_paths: Vec<String>) -> (r: DreamProcessOutput)
        requires
            self@.wf(),
            self.stage == DreamStage::Prune,
        ensures
            text::views(r.phases_completed@) == self@.phases(),
            text::views(r.insight_paths@) == self@.insight_paths,
            text::views(r.fragment_paths@) == self@.fragment_paths,
            r.pruned_paths == pruned_paths,
            text::views(r.req_ids@) == self@.req_ids,
            r.aggregate_usage == tier3_auto_dream::reported_usage(
                self.tally.input_tokens,
                self.tally.output_tokens,
            ),
            text::views(r.theme_ids@) == Seq::new(self@.themes.len(), |i: int| self@.themes[i].id),
            r.parse_failures == self.tally.parse_failures,
            r.themes_skipped_no_evidence == self.tally.themes_skipped_no_evidence,
    {
        let phases_completed = self.completed();
        let mut theme_ids: Vec<String> = Vec::new();
        let mut i: usize = 0;
        while i < self.themes.len()
            invariant
                i <= self.themes@.len(),
                theme_ids@.len() == i,
                forall|k: int| 0 <= k < i ==> #[trigger] theme_ids@[k]@ == self.themes@[k].id@,
            decreases self.themes@.len() - i,
        {
            theme_ids.push(self.themes[i].id.clone());
            i = i + 1;
        }
        assert(text::views(theme_ids@) =~= Seq::new(
            self@.themes.len(),
            |i: int| self@.themes[i].id,
        ));
        let aggregate_usage = tier3_auto_dream::build_usage_wire(
            self.tally.input_tokens,
            self.tally.output_tokens,
        );
        DreamProcessOutput {
            phases_completed,
            insight_paths: self.insight_paths,
            fragment_paths: self.fragment_paths,
            pruned_paths,
            req_ids: self.req_ids,
            aggregate_usage,
            theme_ids,
            parse_failures: self.tally.parse_failures,
            themes_skipped_no_evidence: self.tally.themes_skipped_no_evidence,
        }
    }
}

// ---------------------------------------------------------------------------
// What a run promises
// ---------------------------------------------------------------------------

/// A consolidated theme becomes a fragment exactly where its confidence is low, and an insight otherwise. Its file
/// stands in the directory of dreams, its name says which of the two it is and of which theme, and it holds what the
/// model wrote.
pub proof fn only_low_confidence_makes_fragments(v: RunView, block: Phase3View, digest: Seq<u8>)
    requires
        v.wf(),
        v.stage == DreamStage::Consolidate,
    ensures
        ({
            let after = v.consolidated(Some(block), digest);
            let c = after.candidate->0;
            let theme = v.themes[v.next_theme];
            let kind = if block.confidence == "low"@ {
                "fragment_"@
            } else {
                "insight_"@
            };
            &&& after.candidate is Some
            &&& after.stage == DreamStage::Store
            &&& c.is_fragment <==> block.confidence == "low"@
            &&& c.content == block.full_content
            &&& c.path == path::under(
                path::under(v.memory_dir, "dreams"@),
                kind + text::sanitized(theme.id) + "_"@ + text::hex(digest.take(4)) + ".md"@,
            )
            &&& after.themes == v.themes
            &&& after.next_theme == v.next_theme
            &&& after.insight_paths == v.insight_paths
            &&& after.fragment_paths == v.fragment_paths
            &&& after.req_ids == v.req_ids
            &&& after.tally.parse_failures == v.tally.parse_failures
        }),
{
}

/// What is stored is reported under what it is: an insight, with medium or high confidence, among the insights, and a
/// fragment among the fragments. What was found redundant is reported nowhere.
pub proof fn stored_memories_are_reported_once(
    v: RunView,
    block: Phase3View,
    digest: Seq<u8>,
    redundant: bool,
)
    requires
        v.wf(),
        v.stage == DreamStage::Consolidate,
    ensures
        ({
            let c = v.consolidated(Some(block), digest);
            let after = c.stored(redundant);
            let p = c.candidate->0.path;
            &&& after.insight_paths == (if !redundant && block.confidence != "low"@ {
                v.insight_paths.push(p)
            } else {
                v.insight_paths
            })
            &&& after.fragment_paths == (if !redundant && block.confidence == "low"@ {
                v.fragment_paths.push(p)
            } else {
                v.fragment_paths
            })
            &&& after.next_theme == v.next_theme + 1
            &&& after.stage == (if v.next_theme + 1 == v.themes.len() {
                DreamStage::Prune
            } else {
                DreamStage::Gather
            })
            &&& after.candidate is None
            &&& after.evidence.len() == 0
        }),
{
}

/// A reply that cannot be read never ends a run: it is counted once, and the run goes on with nothing in its place.
pub proof fn unread_replies_are_passed_over(v: RunView, digest: Seq<u8>)
    requires
        v.wf(),
        v.tally.parse_failures < u32::MAX,
    ensures
        v.stage == DreamStage::Reflect ==> {
            let after = v.reflected(None);
            &&& after.stage == DreamStage::Orient
            &&& after.reflection.stale_ids.len() == 0
            &&& after.reflection.still_valid_ids.len() == 0
            &&& after.tally.parse_failures == v.tally.parse_failures + 1
        },
        v.stage == DreamStage::Orient ==> {
            let after = v.oriented(None);
            &&& after.stage == DreamStage::Prune
            &&& after.themes.len() == 0
            &&& after.tally.parse_failures == v.tally.parse_failures + 1
        },
        v.stage == DreamStage::Gather ==> v.gathered(None).next_theme == v.next_theme + 1
            && v.gathered(None).tally.parse_failures == v.tally.parse_failures + 1,
        v.stage == DreamStage::Consolidate ==> {
            let after = v.consolidated(None, digest);
            &&& after.next_theme == v.next_theme + 1
            &&& after.candidate is None
            &&& after.tally.parse_failures == v.tally.parse_failures + 1
            &&& after.insight_paths == v.insight_paths
            &&& after.fragment_paths == v.fragment_paths
        },
{
}

/// What is read is what the run goes on with: the reflection, then every theme from the first one on, then the evidence
/// for the theme at hand.
pub proof fn read_replies_are_taken_over(
    v: RunView,
    reflection: ReflectionView,
    themes: Seq<ThemeView>,
    evidence: Seq<EvidenceView>,
)
    requires
        v.wf(),
    ensures
        v.reflected(Some(reflection)) == (RunView { stage: DreamStage::Orient, reflection, ..v }),
        ({
            let after = v.oriented(Some(themes));
            &&& after.themes == themes
            &&& after.next_theme == 0
            &&& after.stage == (if themes.len() > 0 {
                DreamStage::Gather
            } else {
                DreamStage::Prune
            })
            &&& after.tally == v.tally
            &&& after.reflection == v.reflection
        }),
        evidence.len() > 0 ==> v.gathered(Some(evidence)) == (RunView {
            stage: DreamStage::Consolidate,
            evidence,
            ..v
        }),
{
}

/// Every call is reported, in order, and its tokens are counted; nothing else changes with it.
pub proof fn calls_are_reported_in_order(v: RunView, req_id: Seq<char>, usage: Option<LlmUsage>)
    ensures
        v.called(req_id, usage).req_ids == v.req_ids.push(req_id),
        v.called(req_id, usage) == (RunView {
            req_ids: v.req_ids.push(req_id),
            tally: v.called(req_id, usage).tally,
            ..v
        }),
        usage is None ==> v.called(req_id, usage).tally == v.tally,
        usage matches Some(u) ==> {
            let t = v.called(req_id, usage).tally;
            &&& v.tally.input_tokens + u.input_tokens <= u32::MAX ==> t.input_tokens
                == v.tally.input_tokens + u.input_tokens
            &&& v.tally.output_tokens + u.output_tokens <= u32::MAX ==> t.output_tokens
                == v.tally.output_tokens + u.output_tokens
            &&& t.parse_failures == v.tally.parse_failures
            &&& t.phase3_calls == v.tally.phase3_calls
        },
{
}

/// The phases that a run reports, for each way it can take.
pub proof fn phases_follow_the_way_taken(v: RunView)
    ensures
        v.themes.len() == 0 ==> v.phases() == seq!["phase0"@, "phase1"@, "phase4"@],
        v.themes.len() > 0 && v.tally.phase3_calls == 0 ==> v.phases() == seq![
            "phase0"@,
            "phase1"@,
            "phase2"@,
            "phase4"@,
        ],
        v.themes.len() > 0 && v.tally.phase3_calls > 0 ==> v.phases() == seq![
            "phase0"@,
            "phase1"@,
            "phase2"@,
            "phase3"@,
            "phase4"@,
        ],
{
    let p = v.phases();
    if v.themes.len() == 0 {
        assert(p =~= seq!["phase0"@, "phase1"@, "phase4"@]);
    } else if v.tally.phase3_calls == 0 {
        assert(p =~= seq!["phase0"@, "phase1"@, "phase2"@, "phase4"@]);
    } else {
        assert(p =~= seq!["phase0"@, "phase1"@, "phase2"@, "phase3"@, "phase4"@]);
    }
}

} // verus!
