//! One review, step by step.
//!
//! A review waits for one thing after another: what is reviewed, the prompts of
//! its domain, the answers of the model, the comment that is posted. Each of
//! these comes back as an event, and the engine says what is done next.
use vstd::prelude::*;

use crate::ai::{ChatOutput, ChatRequest, Message};
use crate::diff::{file_text, DiffFile};
use crate::diff_parser::{every_header_is_a_file, file_headers, file_views, parsed};
use crate::engine::{
    answer_extract, answers, content_selected, cut_off, diff_selected, effective_budget,
    every_answer_is_in_the_result, every_file_has_its_own_prompt, finding_views, is_answer,
    merged, merged_instructions, needs_repair, output_tokens, posting,
    prompts_show_what_is_reviewed, repair_prompt, reported_tokens, resolve, resolves_to,
    retry_limit, total_reported, was_cut_off, AnswerStep, ConcurrentPlan, Draft, Fetch, Fetched,
    PostStep, Prepared, ResolvedSource, ReviewEngine, ReviewOptions, ReviewRequest, ReviewResult,
    REPAIR_TOKENS,
};
use crate::error::AgentError;
use crate::services::diff_service::{
    files_worth_it_are_reviewed, reviewable, skippable, DiffService,
};
use crate::services::json_extractor::extracted;
use crate::services::prompt_builder::{file_block, rules_text, PromptBuilder};
use crate::services::sanitize::{publishable, sanitized, sanitized_text_is_publishable};
use crate::text::{contains, lines, replaced_text_is_there, views};
use crate::tokens::{diff_within_budget, tokens_of};

verus! {

/// What a review waits for.
pub enum Stage {
    /// What is reviewed.
    Fetching(ReviewRequest),
    /// The prompts of the domain.
    Loading(ResolvedSource, ReviewOptions),
    /// The answers about files that are reviewed each on its own.
    AskingAll(ResolvedSource, ConcurrentPlan),
    /// The answer about all files together.
    Asking {
        source: ResolvedSource,
        options: ReviewOptions,
        prepared: Prepared,
        retried: bool,
    },
    /// The findings that were malformed.
    Repairing {
        source: ResolvedSource,
        options: ReviewOptions,
        prepared: Prepared,
        draft: Draft,
    },
    /// The comment.
    Posting { source: ResolvedSource, prepared: Prepared, draft: Draft },
    /// Nothing more.
    Over,
}

/// What is done next.
pub enum Action {
    /// Get what is reviewed.
    Fetch(Fetch),
    /// Load the prompts of a domain.
    Load(String),
    /// Ask the model about each file.
    AskAll(Vec<ChatRequest>),
    /// Ask the model.
    Ask(ChatRequest),
    /// Post the review, in place of an earlier one where it is an update.
    Post { owner: String, repo: String, number: u64, body: String, update: bool },
    /// The review is made.
    Finish(ReviewResult),
    /// The review failed.
    Fail(AgentError),
    /// The pattern of a rule is out of order.
    BadPattern,
}

/// What came of an action.
pub enum Event {
    Fetched(Result<Fetched, AgentError>),
    /// The prompts, and how many requests may still be sent at once.
    Loaded(PromptBuilder, usize),
    AnsweredAll(Vec<Option<ChatOutput>>),
    Answered(Result<ChatOutput, AgentError>),
    Posted(Result<(), AgentError>),
}

impl Stage {
    /// The event is one that the stage waits for, and where it ends the review,
    /// the tokens can be added up.
    pub open spec fn awaits(self, event: Event) -> bool {
        match (self, event) {
            (Stage::Fetching(request), Event::Fetched(f)) => f matches Ok(fetched) ==> answers(
                request.source,
                fetched,
            ),
            (Stage::Loading(_, _), Event::Loaded(_, _)) => true,
            (Stage::AskingAll(_, plan), Event::AnsweredAll(all)) => ReviewEngine::merges(
                plan,
                all@,
            ),
            (Stage::Asking { prepared, retried, .. }, Event::Answered(a)) => a matches Ok(out)
                ==> (!retried && cut_off(out)) || ReviewEngine::adds_tokens(
                prepared,
                reported_tokens(out),
            ),
            (
                Stage::Repairing { prepared, draft, .. },
                Event::Answered(_),
            ) => ReviewEngine::adds_tokens(prepared, draft.output_tokens),
            (
                Stage::Posting { prepared, draft, .. },
                Event::Posted(_),
            ) => ReviewEngine::adds_tokens(prepared, draft.output_tokens),
            _ => false,
        }
    }

    /// Every changed file is accounted for, as soon as the files are known.
    pub open spec fn counted(self) -> bool {
        match self {
            Stage::Asking { prepared, .. } => prepared.built.adds_up(),
            Stage::Repairing { prepared, .. } => prepared.built.adds_up(),
            Stage::Posting { prepared, .. } => prepared.built.adds_up(),
            _ => true,
        }
    }

    /// What is kept of an answer may be published as it is.
    pub open spec fn publishes_safely(self) -> bool {
        match self {
            Stage::Repairing { draft, .. } => publishable(draft.review_text@),
            Stage::Posting { draft, .. } => publishable(draft.review_text@),
            _ => true,
        }
    }

    /// How far the review is from its end.
    pub open spec fn distance(self) -> nat {
        match self {
            Stage::Fetching(_) => 6,
            Stage::Loading(_, _) => 5,
            Stage::Asking { retried, .. } => if retried {
                3
            } else {
                4
            },
            Stage::Repairing { .. } => 2,
            Stage::AskingAll(_, _) => 1,
            Stage::Posting { .. } => 1,
            Stage::Over => 0,
        }
    }
}

/// What of the diff of a source is worth a review, out of how many files.
pub open spec fn worth_reviewing(
    svc: DiffService,
    source: ResolvedSource,
    changed: nat,
    worth: Seq<DiffFile>,
) -> bool {
    if source.file_contents is None && source.raw_diff@.len() > 0 {
        exists|files: Seq<DiffFile>|
            file_views(files) == parsed(lines(source.raw_diff@)).files && changed == files.len()
                && worth == #[trigger] reviewable(files, svc.max_diff_files as nat)
    } else {
        changed == 0 && worth.len() == 0
    }
}

impl ReviewEngine {
    /// A review begins with what is reviewed.
    pub open spec fn begins(self, request: ReviewRequest, next: Stage, action: Action) -> bool {
        match action {
            Action::Fetch(f) => next == Stage::Fetching(request) && self.fetches(
                request.source,
                Ok(f),
            ),
            Action::Fail(e) => next is Over && self.fetches(request.source, Err(e)),
            _ => false,
        }
    }

    /// With the prompts at hand, the model is asked: about each file that passes
    /// the path filter on its own, where there are several files and a request
    /// may be sent, else about all together.
    pub open spec fn inquires(
        self,
        source: ResolvedSource,
        options: ReviewOptions,
        builder: PromptBuilder,
        permits: usize,
        next: Stage,
        action: Action,
    ) -> bool {
        let extra = merged_instructions(self.config_extra@, options.extra_instructions@);
        if source.file_contents matches Some(f) && f@.len() > 1 && permits > 0 {
            next matches Stage::AskingAll(s, plan) && action matches Action::AskAll(requests) && {
                &&& s == source
                &&& ReviewEngine::is_plan(
                    plan,
                    source,
                    source.file_contents.unwrap()@,
                    builder,
                    extra,
                    views(options.paths@),
                )
                &&& requests@.len() == plan.users@.len()
                &&& forall|i: int|
                    0 <= i < requests@.len() ==> self.ai.is_chat(
                        #[trigger] requests@[i],
                        plan.system@,
                        plan.users@[i]@,
                        self.ai.max_completion_tokens,
                    )
            }
        } else {
            exists|changed: nat, worth: Seq<DiffFile>| #[trigger]
                worth_reviewing(self.diff_svc, source, changed, worth) && match action {
                    Action::BadPattern => next is Over && builder.applicable(worth) is None,
                    Action::Ask(request) => {
                        next matches Stage::Asking { source: s, options: o, prepared, retried } && {
                            &&& s == source
                            &&& o == options
                            &&& !retried
                            &&& builder.applicable(worth) is Some
                            &&& self.is_prepared(
                                prepared,
                                source,
                                changed,
                                worth,
                                builder,
                                extra,
                                views(options.paths@),
                            )
                            &&& prepared.built.adds_up()
                            &&& self.ai.is_chat(
                                request,
                                prepared.system@,
                                prepared.built.user@,
                                self.ai.max_completion_tokens,
                            )
                        }
                    },
                    _ => false,
                }
        }
    }

    /// A draft is posted where that was asked for and can be done, and else it
    /// is the result.
    pub open spec fn concludes(
        self,
        source: ResolvedSource,
        options: ReviewOptions,
        prepared: Prepared,
        draft: Draft,
        latency_ms: u64,
        next: Stage,
        action: Action,
    ) -> bool {
        let step = posting(self.github is Some, options, source);
        if step == PostStep::Publish || step == PostStep::Update {
            &&& next == (Stage::Posting { source, prepared, draft })
            &&& action matches Action::Post { owner, repo, number, body, update } && {
                &&& opt_is(source.owner, owner@)
                &&& opt_is(source.repo, repo@)
                &&& source.pr_number == Some(number)
                &&& body@ == draft.review_text@
                &&& update == options.sticky
            }
        } else {
            action matches Action::Finish(r) && next is Over && self.is_finished(
                r,
                source,
                prepared,
                draft,
                latency_ms,
            ) && (prepared.built.adds_up() ==> r.stats.adds_up())
        }
    }

    /// What follows an answer about all files together: one that was cut off is
    /// asked for once more, malformed findings are asked to be mended, and
    /// anything else concludes the review.
    pub open spec fn takes_answer(
        self,
        source: ResolvedSource,
        options: ReviewOptions,
        prepared: Prepared,
        retried: bool,
        out: ChatOutput,
        latency_ms: u64,
        next: Stage,
        action: Action,
    ) -> bool {
        let e = answer_extract(out.content@);
        if !retried && cut_off(out) {
            &&& next == (Stage::Asking { source, options, prepared, retried: true })
            &&& action matches Action::Ask(request) && self.ai.is_chat(
                request,
                prepared.system@,
                prepared.built.user@,
                retry_limit(self.ai.max_completion_tokens),
            )
        } else if needs_repair(e) {
            &&& next matches Stage::Repairing { source: s, options: o, prepared: p, draft } && {
                &&& s == source
                &&& o == options
                &&& p == prepared
                &&& draft.extract() == e
                &&& draft.output_tokens == reported_tokens(out)
            }
            &&& action matches Action::Ask(request) && self.ai.is_chat(
                request,
                prepared.system@,
                repair_prompt(e.dropped_count),
                REPAIR_TOKENS,
            )
        } else {
            exists|draft: Draft|
                draft.extract() == e && draft.output_tokens == reported_tokens(out)
                    && #[trigger] self.concludes(
                    source,
                    options,
                    prepared,
                    draft,
                    latency_ms,
                    next,
                    action,
                )
        }
    }

    /// What follows the attempt to mend findings: usable ones count, else those
    /// that there were.
    pub open spec fn takes_repair(
        self,
        source: ResolvedSource,
        options: ReviewOptions,
        prepared: Prepared,
        draft: Draft,
        repaired: Result<ChatOutput, AgentError>,
        latency_ms: u64,
        next: Stage,
        action: Action,
    ) -> bool {
        if repaired matches Ok(out) && answer_extract(out.content@).findings.len() > 0 {
            exists|mended: Draft|
                mended.extract() == answer_extract(repaired->Ok_0.content@)
                    && mended.output_tokens == draft.output_tokens && #[trigger] self.concludes(
                    source,
                    options,
                    prepared,
                    mended,
                    latency_ms,
                    next,
                    action,
                )
        } else {
            self.concludes(source, options, prepared, draft, latency_ms, next, action)
        }
    }

    /// What follows an event. Whatever fails ends the review with its error, but
    /// for the attempt to mend findings.
    pub open spec fn follows(
        self,
        stage: Stage,
        event: Event,
        latency_ms: u64,
        next: Stage,
        action: Action,
    ) -> bool {
        match (stage, event) {
            (Stage::Fetching(request), Event::Fetched(Ok(fetched))) => match action {
                Action::Load(domain) => next matches Stage::Loading(s, o) && o == request.options
                    && resolves_to(request.source, fetched, Ok(s)) && domain@ == s.domain@,
                Action::Fail(e) => next is Over && resolves_to(request.source, fetched, Err(e)),
                _ => false,
            },
            (Stage::Loading(source, options), Event::Loaded(builder, permits)) => self.inquires(
                source,
                options,
                builder,
                permits,
                next,
                action,
            ),
            (Stage::AskingAll(source, plan), Event::AnsweredAll(all)) => action matches Action::Finish(
                r,
            ) && next is Over && self.is_merged(
                r,
                source,
                plan,
                all@,
                latency_ms,
            ) && r.stats.adds_up(),
            (
                Stage::Asking { source, options, prepared, retried },
                Event::Answered(Ok(out)),
            ) => self.takes_answer(
                source,
                options,
                prepared,
                retried,
                out,
                latency_ms,
                next,
                action,
            ),
            (
                Stage::Repairing { source, options, prepared, draft },
                Event::Answered(repaired),
            ) => self.takes_repair(
                source,
                options,
                prepared,
                draft,
                repaired,
                latency_ms,
                next,
                action,
            ),
            (
                Stage::Posting { source, prepared, draft },
                Event::Posted(Ok(())),
            ) => action matches Action::Finish(r) && next is Over && self.is_finished(
                r,
                source,
                prepared,
                draft,
                latency_ms,
            ) && (prepared.built.adds_up() ==> r.stats.adds_up()),
            (Stage::Fetching(_), Event::Fetched(Err(e))) => next is Over && action == Action::Fail(
                e,
            ),
            (Stage::Asking { .. }, Event::Answered(Err(e))) => next is Over && action
                == Action::Fail(e),
            (Stage::Posting { .. }, Event::Posted(Err(e))) => next is Over && action
                == Action::Fail(e),
            _ => true,
        }
    }
}

/// The text is there, and it is this one.
pub open spec fn opt_is(text: Option<String>, words: Seq<char>) -> bool {
    text matches Some(t) && t@ == words
}

fn tokens_fit(prepared: &Prepared, output: Option<u32>) -> (r: bool)
    ensures
        r == ReviewEngine::adds_tokens(*prepared, output),
{
    match output {
        Some(n) => {
            let input: usize = prepared.built.input_tokens_estimated;
            n as u64 <= usize::MAX as u64 && prepared.system_tokens <= usize::MAX - input
                && prepared.system_tokens + input <= usize::MAX - n as usize
        },
        None => true,
    }
}

fn plan_fits(plan: &ConcurrentPlan, answers: &Vec<Option<ChatOutput>>) -> (r: bool)
    ensures
        r == ReviewEngine::merges(*plan, answers@),
{
    if answers.len() != plan.users.len() || plan.users.len() > plan.files_changed {
        return false;
    }
    match plan.input_total() {
        None => false,
        Some(input) => match total_reported(answers) {
            Ok(Some(n)) => n as u64 <= usize::MAX as u64 && plan.system_tokens <= usize::MAX - input
                && plan.system_tokens + input <= usize::MAX - n as usize,
            Ok(None) => true,
            Err(()) => false,
        },
    }
}

impl Stage {
    /// Whether the event is one that the stage waits for, and the tokens can be
    /// added up where it ends the review.
    pub fn may_take(&self, event: &Event) -> (r: bool)
        ensures
            r == self.awaits(*event),
    {
        match (self, event) {
            (Stage::Fetching(request), Event::Fetched(f)) => match f {
                Ok(fetched) => is_answer(&request.source, fetched),
                Err(_) => true,
            },
            (Stage::Loading(_, _), Event::Loaded(_, _)) => true,
            (Stage::AskingAll(_, plan), Event::AnsweredAll(all)) => plan_fits(plan, all),
            (Stage::Asking { prepared, retried, .. }, Event::Answered(a)) => match a {
                Ok(out) => (!*retried && was_cut_off(out)) || tokens_fit(
                    prepared,
                    output_tokens(out),
                ),
                Err(_) => true,
            },
            (Stage::Repairing { prepared, draft, .. }, Event::Answered(_)) => tokens_fit(
                prepared,
                draft.output_tokens,
            ),
            (Stage::Posting { prepared, draft, .. }, Event::Posted(_)) => tokens_fit(
                prepared,
                draft.output_tokens,
            ),
            _ => false,
        }
    }
}

impl ReviewEngine {
    /// Begins a review.
    pub fn begin(&self, request: ReviewRequest) -> (r: (Stage, Action))
        ensures
            self.begins(request, r.0, r.1),
    {
        match self.fetch_step(&request.source) {
            Ok(f) => (Stage::Fetching(request), Action::Fetch(f)),
            Err(e) => (Stage::Over, Action::Fail(e)),
        }
    }

    fn chats(&self, plan: &ConcurrentPlan) -> (r: Vec<ChatRequest>)
        ensures
            r@.len() == plan.users@.len(),
            forall|i: int|
                0 <= i < r@.len() ==> self.ai.is_chat(
                    #[trigger] r@[i],
                    plan.system@,
                    plan.users@[i]@,
                    self.ai.max_completion_tokens,
                ),
    {
        let mut requests: Vec<ChatRequest> = Vec::new();
        let mut i: usize = 0;
        while i < plan.users.len()
            invariant
                i <= plan.users@.len(),
                requests@.len() == i,
                forall|j: int|
                    0 <= j < i ==> self.ai.is_chat(
                        #[trigger] requests@[j],
                        plan.system@,
                        plan.users@[j]@,
                        self.ai.max_completion_tokens,
                    ),
            decreases plan.users@.len() - i,
        {
            requests.push(self.ai.chat(plan.system.as_str(), plan.users[i].as_str()));
            i += 1;
        }
        requests
    }

    fn inquire(
        &self,
        source: ResolvedSource,
        options: ReviewOptions,
        builder: &PromptBuilder,
        permits: usize,
    ) -> (r: (Stage, Action))
        ensures
            self.inquires(source, options, *builder, permits, r.0, r.1),
    {
        let extra = self.instructions(&options);
        let alone = source.reviews_concurrently(permits);
        let plan = match &source.file_contents {
            Some(files) => if alone {
                Some(
                    ReviewEngine::plan_concurrent(
                        &source,
                        files,
                        builder,
                        extra.as_str(),
                        &options.paths,
                    ),
                )
            } else {
                None
            },
            None => None,
        };
        match plan {
            Some(plan) => {
                let requests = self.chats(&plan);
                return (Stage::AskingAll(source, plan), Action::AskAll(requests));
            },
            None => {},
        }
        let (changed, worth): (usize, Vec<DiffFile>) = if source.has_diff() {
            self.diff_svc.parse_and_filter(source.raw_diff.as_str())
        } else {
            (0, Vec::new())
        };
        assert(worth_reviewing(self.diff_svc, source, changed as nat, worth@));
        match self.prepare(&source, changed, worth, builder, extra.as_str(), &options.paths) {
            Some(prepared) => {
                let request = self.ai.chat(
                    prepared.system.as_str(),
                    prepared.built.user.as_str(),
                );
                (Stage::Asking { source, options, prepared, retried: false }, Action::Ask(request))
            },
            None => (Stage::Over, Action::BadPattern),
        }
    }

    fn conclude(
        &self,
        source: ResolvedSource,
        options: &ReviewOptions,
        prepared: Prepared,
        draft: Draft,
        latency_ms: u64,
    ) -> (r: (Stage, Action))
        requires
            ReviewEngine::adds_tokens(prepared, draft.output_tokens),
        ensures
            self.concludes(source, *options, prepared, draft, latency_ms, r.0, r.1),
    {
        let step = self.post_step(options, &source);
        if step == PostStep::Publish || step == PostStep::Update {
            match (&source.owner, &source.repo, source.pr_number) {
                (Some(owner), Some(repo), Some(number)) => {
                    let action = Action::Post {
                        owner: owner.clone(),
                        repo: repo.clone(),
                        number,
                        body: draft.review_text.clone(),
                        update: step == PostStep::Update,
                    };
                    return (Stage::Posting { source, prepared, draft }, action);
                },
                _ => {},
            }
        }
        let result = self.finish(&source, &prepared, draft, latency_ms);
        (Stage::Over, Action::Finish(result))
    }

    /// What is done after an event, and what the review then waits for.
    pub fn advance(&self, stage: Stage, event: Event, latency_ms: u64) -> (r: (Stage, Action))
        requires
            stage.awaits(event),
        ensures
            self.follows(stage, event, latency_ms, r.0, r.1),
    {
        match (stage, event) {
            (Stage::Fetching(request), Event::Fetched(Ok(fetched))) => {
                match resolve(request.source, fetched) {
                    Ok(source) => {
                        let domain = source.domain.clone();
                        (Stage::Loading(source, request.options), Action::Load(domain))
                    },
                    Err(e) => (Stage::Over, Action::Fail(e)),
                }
            },
            (Stage::Loading(source, options), Event::Loaded(builder, permits)) => self.inquire(
                source,
                options,
                &builder,
                permits,
            ),
            (Stage::AskingAll(source, plan), Event::AnsweredAll(all)) => {
                let result = self.merge_concurrent(&source, &plan, &all, latency_ms);
                (Stage::Over, Action::Finish(result))
            },
            (
                Stage::Asking { source, options, prepared, retried },
                Event::Answered(Ok(out)),
            ) => match self.on_answer(&out, retried) {
                AnswerStep::AskAgain(limit) => {
                    let request = self.ai.chat_with_max_tokens(
                        prepared.system.as_str(),
                        prepared.built.user.as_str(),
                        limit,
                    );
                    (
                        Stage::Asking { source, options, prepared, retried: true },
                        Action::Ask(request),
                    )
                },
                AnswerStep::Repair(draft, prompt) => {
                    let request = self.ai.chat_with_max_tokens(
                        prepared.system.as_str(),
                        prompt.as_str(),
                        REPAIR_TOKENS,
                    );
                    (Stage::Repairing { source, options, prepared, draft }, Action::Ask(request))
                },
                AnswerStep::Ready(draft) => self.conclude(
                    source,
                    &options,
                    prepared,
                    draft,
                    latency_ms,
                ),
            },
            (
                Stage::Repairing { source, options, prepared, draft },
                Event::Answered(repaired),
            ) => {
                let mended = match &repaired {
                    Ok(out) => ReviewEngine::on_repair(draft, Some(out)),
                    Err(_) => ReviewEngine::on_repair(draft, None),
                };
                self.conclude(source, &options, prepared, mended, latency_ms)
            },
            (Stage::Posting { source, prepared, draft }, Event::Posted(Ok(()))) => {
                let result = self.finish(&source, &prepared, draft, latency_ms);
                (Stage::Over, Action::Finish(result))
            },
            (_, Event::Fetched(Err(e))) => (Stage::Over, Action::Fail(e)),
            (_, Event::Answered(Err(e))) => (Stage::Over, Action::Fail(e)),
            (_, Event::Posted(Err(e))) => (Stage::Over, Action::Fail(e)),
            // No other event is awaited.
            (_, _) => (Stage::Over, Action::BadPattern),
        }
    }
}

// ---------------------------------------------------------------------------
// What holds of every review

/// Every event brings a review closer to its end.
pub proof fn reviews_come_to_an_end(
    engine: ReviewEngine,
    stage: Stage,
    event: Event,
    latency_ms: u64,
    next: Stage,
    action: Action,
)
    requires
        stage.awaits(event),
        engine.follows(stage, event, latency_ms, next, action),
    ensures
        next.distance() < stage.distance(),
{
}

/// A review is over exactly where it is made or has failed.
pub proof fn the_last_action_ends_the_review(
    engine: ReviewEngine,
    stage: Stage,
    event: Event,
    latency_ms: u64,
    next: Stage,
    action: Action,
)
    requires
        stage.awaits(event),
        engine.follows(stage, event, latency_ms, next, action),
    ensures
        next is Over <==> (action is Finish || action is Fail || action is BadPattern),
{
}

/// Nothing is posted but where it was asked for, about a pull request and with
/// a token.
pub proof fn only_wanted_reviews_are_posted(
    engine: ReviewEngine,
    stage: Stage,
    event: Event,
    latency_ms: u64,
    next: Stage,
    action: Action,
)
    requires
        stage.awaits(event),
        engine.follows(stage, event, latency_ms, next, action),
        action is Post,
    ensures
        engine.github is Some,
        match stage {
            Stage::Asking { source, options, .. } => options.post_to_github
                && action->Post_update == options.sticky && source.pr_number == Some(
                action->Post_number,
            ),
            Stage::Repairing { source, options, .. } => options.post_to_github
                && action->Post_update == options.sticky && source.pr_number == Some(
                action->Post_number,
            ),
            _ => false,
        },
{
}

/// The result of a review that was posted holds the text that was posted.
pub proof fn the_result_is_what_was_posted(
    engine: ReviewEngine,
    stage: Stage,
    event: Event,
    before: u64,
    posting: Stage,
    post: Action,
    after: u64,
    next: Stage,
    action: Action,
)
    requires
        stage.awaits(event),
        engine.follows(stage, event, before, posting, post),
        post is Post,
        posting.awaits(Event::Posted(Ok(()))),
        engine.follows(posting, Event::Posted(Ok(())), after, next, action),
    ensures
        action is Finish,
        action->Finish_0.review_text@ == post->Post_body@,
{
}

/// From the first event on, every changed file is accounted for, and so it is in
/// the result.
pub proof fn files_stay_accounted_for(
    engine: ReviewEngine,
    stage: Stage,
    event: Event,
    latency_ms: u64,
    next: Stage,
    action: Action,
)
    requires
        stage.counted(),
        stage.awaits(event),
        engine.follows(stage, event, latency_ms, next, action),
    ensures
        next.counted(),
        action matches Action::Finish(r) ==> r.stats.adds_up(),
{
}

/// No line outside of code blocks of what is posted, or of the text of the result,
/// holds a workflow command or an escape character, whatever the model answered.
pub proof fn nothing_harmful_is_published(
    engine: ReviewEngine,
    stage: Stage,
    event: Event,
    latency_ms: u64,
    next: Stage,
    action: Action,
)
    requires
        stage.publishes_safely(),
        stage.awaits(event),
        engine.follows(stage, event, latency_ms, next, action),
    ensures
        next.publishes_safely(),
        action matches Action::Post { body, .. } ==> publishable(body@),
        action matches Action::Finish(r) ==> publishable(r.review_text@),
{
    assert forall|content: Seq<char>| publishable(
        #[trigger] answer_extract(content).review_text,
    ) by {
        sanitized_text_is_publishable(extracted(sanitized(content)).review_text);
    }
    assert forall|d: Draft| (#[trigger] d.extract()).review_text == d.review_text@ by {}
    match (stage, event) {
        (Stage::AskingAll(_, _), Event::AnsweredAll(all)) => {
            sanitized_text_is_publishable(merged(all@).review_text);
        },
        _ => {},
    }
}

/// A review that begins is in order.
pub proof fn reviews_begin_in_order(
    engine: ReviewEngine,
    request: ReviewRequest,
    next: Stage,
    action: Action,
)
    requires
        engine.begins(request, next, action),
    ensures
        next.counted(),
        next.publishes_safely(),
        next is Over <==> action is Fail,
        action is Fail ==> request.source is PrUrl && engine.github is None,
{
}

/// What a message says; nothing where it has no text.
pub open spec fn said(m: Message) -> Seq<char> {
    match m.content {
        Some(c) => c@,
        None => Seq::empty(),
    }
}

/// The model is shown every file of a diff that is reviewed: of those that are worth it
/// and pass the filter, as many as fit what the system prompt and the instructions leave
/// of the limit. It is told the rules that apply to what is worth a review, and the
/// files that are counted as reviewed are those that it is shown.
pub proof fn the_model_is_shown_what_is_reviewed(
    engine: ReviewEngine,
    source: ResolvedSource,
    options: ReviewOptions,
    builder: PromptBuilder,
    permits: usize,
    latency_ms: u64,
    next: Stage,
    request: ChatRequest,
)
    requires
        engine.follows(
            Stage::Loading(source, options),
            Event::Loaded(builder, permits),
            latency_ms,
            next,
            Action::Ask(request),
        ),
        source.file_contents is None,
        contains(builder.user_template@, "{content_format}"@),
        contains(builder.system_prompt@, "{system_rule}"@),
    ensures
        request.messages@.len() == 2,
        request.messages@[0].role@ == "system"@,
        request.messages@[1].role@ == "user"@,
        exists|changed: nat, worth: Seq<DiffFile>|
            {
                let system = said(request.messages@[0]);
                let user = said(request.messages@[1]);
                let extra = merged_instructions(
                    engine.config_extra@,
                    options.extra_instructions@,
                );
                let selected = diff_selected(worth, views(options.paths@));
                let reviewed = diff_within_budget(
                    selected,
                    effective_budget(
                        engine.diff_svc.max_input_tokens as nat,
                        selected.len(),
                        tokens_of(system) as nat,
                        extra,
                    ),
                );
                &&& #[trigger] worth_reviewing(engine.diff_svc, source, changed, worth)
                &&& forall|i: int|
                    0 <= i < reviewed.len() ==> contains(user, file_text(#[trigger] reviewed[i]))
                &&& builder.applicable(worth) matches Some(names) && contains(
                    system,
                    rules_text(names, builder.rule_contents@, 0, ""@),
                )
                &&& next matches Stage::Asking { prepared, .. } && prepared.built.files_reviewed
                    == reviewed.len() && prepared.built.files_changed == changed
            },
{
    reveal_strlit("{system_rule}");
    let extra = merged_instructions(engine.config_extra@, options.extra_instructions@);
    let prepared = next->Asking_prepared;
    let (changed, worth) = choose|changed: nat, worth: Seq<DiffFile>|
        {
            &&& #[trigger] worth_reviewing(engine.diff_svc, source, changed, worth)
            &&& builder.applicable(worth) is Some
            &&& engine.is_prepared(
                prepared,
                source,
                changed,
                worth,
                builder,
                extra,
                views(options.paths@),
            )
        };
    let rules = rules_text(builder.applicable(worth).unwrap(), builder.rule_contents@, 0, ""@);
    replaced_text_is_there(builder.system_prompt@, "{system_rule}"@, rules);
    let selected = diff_selected(worth, views(options.paths@));
    let reviewed = diff_within_budget(
        selected,
        effective_budget(
            engine.diff_svc.max_input_tokens as nat,
            selected.len(),
            prepared.system_tokens as nat,
            extra,
        ),
    );
    assert(said(request.messages@[0]) == prepared.system@);
    assert(said(request.messages@[1]) == prepared.built.user@);
    assert forall|i: int| 0 <= i < reviewed.len() implies contains(
        prepared.built.user@,
        file_text(#[trigger] reviewed[i]),
    ) by {
        prompts_show_what_is_reviewed(
            prepared.built,
            changed,
            worth,
            builder,
            source.context_view(),
            extra,
            views(options.paths@),
            engine.diff_svc.max_input_tokens as nat,
            prepared.system_tokens as nat,
            i,
        );
    }
    assert(worth_reviewing(engine.diff_svc, source, changed, worth));
}

/// What the model said is what comes of a review: the findings that are extracted from
/// its answer, and the text around them, are what is posted and what the result holds.
pub proof fn results_are_what_the_model_said(
    engine: ReviewEngine,
    source: ResolvedSource,
    options: ReviewOptions,
    prepared: Prepared,
    retried: bool,
    out: ChatOutput,
    latency_ms: u64,
    next: Stage,
    action: Action,
)
    requires
        engine.follows(
            Stage::Asking { source, options, prepared, retried },
            Event::Answered(Ok(out)),
            latency_ms,
            next,
            action,
        ),
    ensures
        ({
            let e = extracted(sanitized(out.content@));
            let text = sanitized(e.review_text);
            &&& action matches Action::Finish(r) ==> {
                &&& finding_views(r.findings@) == e.findings
                &&& r.review_text@ == text
                &&& r.stats.output_tokens_reported == reported_tokens(out)
                &&& r.pr_number == source.pr_number
            }
            &&& action matches Action::Post { owner, repo, number, body, update } ==> {
                &&& body@ == text
                &&& source.owner matches Some(o) && o@ == owner@
                &&& source.repo matches Some(p) && p@ == repo@
                &&& source.pr_number == Some(number)
                &&& next matches Stage::Posting { draft, .. } && finding_views(draft.findings@)
                    == e.findings && draft.review_text@ == text
            }
            &&& action is Ask ==> (!retried && cut_off(out)) || (e.dropped_count > 0
                && e.findings.len() > 0)
            &&& !(!retried && cut_off(out)) && !(e.dropped_count > 0 && e.findings.len() > 0)
                ==> action is Finish || action is Post
        }),
{
    let e = answer_extract(out.content@);
    if !(!retried && cut_off(out)) && !needs_repair(e) {
        let draft = choose|draft: Draft|
            draft.extract() == e && draft.output_tokens == reported_tokens(out)
                && #[trigger] engine.concludes(
                source,
                options,
                prepared,
                draft,
                latency_ms,
                next,
                action,
            );
        assert(finding_views(draft.findings@) == draft.extract().findings);
        assert(draft.review_text@ == draft.extract().review_text);
    }
}

/// An answer that was cut off is asked for again with the same prompts, and once at most.
pub proof fn cut_off_answers_are_asked_for_once_more(
    engine: ReviewEngine,
    source: ResolvedSource,
    options: ReviewOptions,
    prepared: Prepared,
    out: ChatOutput,
    latency_ms: u64,
    next: Stage,
    action: Action,
)
    requires
        cut_off(out),
        engine.follows(
            Stage::Asking { source, options, prepared, retried: false },
            Event::Answered(Ok(out)),
            latency_ms,
            next,
            action,
        ),
    ensures
        next == (Stage::Asking { source, options, prepared, retried: true }),
        action matches Action::Ask(request) && request.messages@.len() == 2 && said(
            request.messages@[0],
        ) == prepared.system@ && said(request.messages@[1]) == prepared.built.user@
            && request.max_tokens == Some(retry_limit(engine.ai.max_completion_tokens)),
{
}

/// Findings that were mended count in place of those that there were; without any, those
/// that there were do, and the review goes on.
pub proof fn mended_findings_count(
    engine: ReviewEngine,
    source: ResolvedSource,
    options: ReviewOptions,
    prepared: Prepared,
    draft: Draft,
    repaired: Result<ChatOutput, AgentError>,
    latency_ms: u64,
    next: Stage,
    action: Action,
)
    requires
        engine.follows(
            Stage::Repairing { source, options, prepared, draft },
            Event::Answered(repaired),
            latency_ms,
            next,
            action,
        ),
    ensures
        action is Finish || action is Post,
        ({
            let usable = repaired matches Ok(out) && extracted(
                sanitized(out.content@),
            ).findings.len() > 0;
            &&& action matches Action::Finish(r) ==> {
                &&& usable ==> finding_views(r.findings@) == extracted(
                    sanitized(repaired->Ok_0.content@),
                ).findings
                &&& !usable ==> r.findings == draft.findings && r.review_text == draft.review_text
                &&& r.stats.output_tokens_reported == draft.output_tokens
            }
            &&& action is Post ==> (next matches Stage::Posting { draft: d, .. } && (usable
                ==> finding_views(d.findings@) == extracted(
                sanitized(repaired->Ok_0.content@),
            ).findings) && (!usable ==> d == draft))
        }),
{
    if repaired matches Ok(out) && answer_extract(out.content@).findings.len() > 0 {
        let e = answer_extract(repaired->Ok_0.content@);
        let mended = choose|mended: Draft|
            mended.extract() == e && mended.output_tokens == draft.output_tokens
                && #[trigger] engine.concludes(
                source,
                options,
                prepared,
                mended,
                latency_ms,
                next,
                action,
            );
        assert(finding_views(mended.findings@) == mended.extract().findings);
    }
}

/// Whatever fails on the way ends the review with the error that it failed with.
pub proof fn failures_are_reported(
    engine: ReviewEngine,
    stage: Stage,
    error: AgentError,
    latency_ms: u64,
    next: Stage,
    action: Action,
)
    ensures
        stage is Fetching && engine.follows(
            stage,
            Event::Fetched(Err(error)),
            latency_ms,
            next,
            action,
        ) ==> action == Action::Fail(error) && next is Over,
        stage is Asking && engine.follows(
            stage,
            Event::Answered(Err(error)),
            latency_ms,
            next,
            action,
        ) ==> action == Action::Fail(error) && next is Over,
        stage is Posting && engine.follows(
            stage,
            Event::Posted(Err(error)),
            latency_ms,
            next,
            action,
        ) ==> action == Action::Fail(error) && next is Over,
{
}

/// The prompts of the domain that the source is in are loaded next, and what is reviewed
/// is what was fetched.
pub proof fn what_was_fetched_is_reviewed(
    engine: ReviewEngine,
    request: ReviewRequest,
    fetched: Fetched,
    latency_ms: u64,
    next: Stage,
    domain: String,
)
    requires
        engine.follows(
            Stage::Fetching(request),
            Event::Fetched(Ok(fetched)),
            latency_ms,
            next,
            Action::Load(domain),
        ),
    ensures
        next matches Stage::Loading(source, options) && options == request.options && resolves_to(
            request.source,
            fetched,
            Ok(source),
        ) && domain@ == source.domain@,
{
}

/// The files of a diff that are worth a review are those of the files that the diff
/// changes, read as they stand in it, that are not to be skipped, up to the cap.
pub proof fn diffs_are_reviewed_as_they_stand(
    svc: DiffService,
    source: ResolvedSource,
    changed: nat,
    worth: Seq<DiffFile>,
)
    requires
        source.file_contents is None,
        source.raw_diff@.len() > 0,
        worth_reviewing(svc, source, changed, worth),
    ensures
        changed == file_headers(lines(source.raw_diff@)),
        exists|files: Seq<DiffFile>|
            {
                let kept = files.filter(|f: DiffFile| !skippable(f.filename@));
                &&& #[trigger] file_views(files) == parsed(lines(source.raw_diff@)).files
                &&& files.len() == changed
                &&& kept.len() <= svc.max_diff_files ==> worth == kept
                &&& kept.len() > svc.max_diff_files ==> worth == kept.take(
                    svc.max_diff_files as int,
                )
            },
{
    let files = choose|files: Seq<DiffFile>|
        file_views(files) == parsed(lines(source.raw_diff@)).files && changed == files.len()
            && worth == #[trigger] reviewable(files, svc.max_diff_files as nat);
    every_header_is_a_file(lines(source.raw_diff@));
    assert(file_views(files).len() == files.len());
    files_worth_it_are_reviewed(files, svc.max_diff_files as nat);
}

/// Where files are reviewed each on its own, the model is asked once about each file that
/// passes the filter, and is shown that file.
pub proof fn the_model_is_asked_about_each_file(
    engine: ReviewEngine,
    source: ResolvedSource,
    options: ReviewOptions,
    builder: PromptBuilder,
    permits: usize,
    latency_ms: u64,
    next: Stage,
    requests: Vec<ChatRequest>,
    i: int,
)
    requires
        engine.follows(
            Stage::Loading(source, options),
            Event::Loaded(builder, permits),
            latency_ms,
            next,
            Action::AskAll(requests),
        ),
        contains(builder.user_template@, "{content_format}"@),
    ensures
        source.file_contents matches Some(files) && {
            let selected = content_selected(files@, views(options.paths@));
            &&& files@.len() > 1
            &&& requests@.len() == selected.len()
            &&& next matches Stage::AskingAll(s, plan) && s == source && plan.users@.len()
                == selected.len() && plan.files_changed == files@.len()
            &&& 0 <= i < selected.len() ==> requests@[i].messages@.len() == 2 && contains(
                said(requests@[i].messages@[1]),
                file_block(selected[i]),
            )
        },
{
    if source.file_contents matches Some(f) && f@.len() > 1 && permits > 0 {
        let files = source.file_contents.unwrap();
        let plan = next->AskingAll_1;
        let extra = merged_instructions(engine.config_extra@, options.extra_instructions@);
        let selected = content_selected(files@, views(options.paths@));
        if 0 <= i < selected.len() {
            every_file_has_its_own_prompt(
                plan,
                source,
                files@,
                builder,
                extra,
                views(options.paths@),
                i,
            );
            assert(engine.ai.is_chat(
                requests@[i],
                plan.system@,
                plan.users@[i]@,
                engine.ai.max_completion_tokens,
            ));
        }
    }
}

/// The result of files that were reviewed each on its own holds the findings of every
/// answer, in their order.
pub proof fn results_hold_every_answer(
    engine: ReviewEngine,
    source: ResolvedSource,
    plan: ConcurrentPlan,
    all: Vec<Option<ChatOutput>>,
    latency_ms: u64,
    next: Stage,
    action: Action,
    i: int,
)
    requires
        engine.follows(
            Stage::AskingAll(source, plan),
            Event::AnsweredAll(all),
            latency_ms,
            next,
            action,
        ),
    ensures
        action matches Action::Finish(r) && {
            &&& r.review_text@ == sanitized(merged(all@).review_text)
            &&& 0 <= i < all@.len() && all@[i] is Some ==> finding_views(r.findings@) == merged(
                all@.take(i),
            ).findings + extracted(sanitized(all@[i].unwrap().content@)).findings + merged(
                all@.skip(i + 1),
            ).findings
        },
{
    let r = action->Finish_0;
    if 0 <= i < all@.len() && all@[i] is Some {
        every_answer_is_in_the_result(
            engine,
            source,
            plan,
            all@,
            latency_ms,
            r,
            i,
            all@[i].unwrap(),
        );
    }
}

} // verus!
