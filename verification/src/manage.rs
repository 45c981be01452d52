//! Taking an existing checkout under management: what the user is asked about it,
//! where it moves, and what is recorded of its remotes.
use crate::config::Config;
use crate::error::{outcome, Error};
use crate::git::{remote_views, GitRemote};
use crate::locator::{locator_path, parsed_locator, parsed_url, placed, Locator, LocatorView};
use crate::moves::locator_views;
use crate::naming::{related_remote_name, remote_name};
use crate::paths::{path_eq, path_starts_with, path_under, same_path};
use crate::registry::{
    known, repo_id_for, top_repo_id, Registry, RegistryView,
};
use crate::registry_relations::forked;
use crate::share::{lemma_upserted, with_repo};
use crate::steps::{
    ensure_remote, moving, moving_text, no_stages, one_stage, one_step, plain_stage, plainly,
    rename, stage_views, Stage, StageView, Step, StepView,
};
use crate::text::{
    decimal, decimal_text, lower, lowercase, opt_view, parse_number, parsed_number, trim, trim_text,
};
use vstd::prelude::*;

verus! {

broadcast use {
    crate::steps::lemma_step_views_push,
    crate::steps::lemma_stage_views_push,
};

/// What a checkout is to its canonical repository.
#[derive(Debug, Clone, Copy, PartialEq, Eq, Structural)]
pub enum ManageRelationship {
    Canonical,
    Fork,
    Mirror,
}

impl ManageRelationship {
    pub open spec fn name(self) -> Seq<char> {
        match self {
            ManageRelationship::Canonical => "canonical"@,
            ManageRelationship::Fork => "fork"@,
            ManageRelationship::Mirror => "mirror"@,
        }
    }

    pub fn as_str(self) -> (r: &'static str)
        ensures
            r@ == self.name(),
    {
        match self {
            ManageRelationship::Canonical => "canonical",
            ManageRelationship::Fork => "fork",
            ManageRelationship::Mirror => "mirror",
        }
    }
}

/// What the user said about a checkout.
#[derive(Debug)]
pub struct ManageChoice {
    pub checkout_url: String,
    pub canonical_url: String,
    pub relationship: ManageRelationship,
    /// Whether the canonical repository is to be there too.
    pub materialize_canonical: bool,
}

#[verifier::ext_equal]
pub struct ChoiceView {
    pub checkout_url: Seq<char>,
    pub canonical_url: Seq<char>,
    pub relationship: ManageRelationship,
    pub materialize_canonical: bool,
}

impl View for ManageChoice {
    type V = ChoiceView;

    open spec fn view(&self) -> ChoiceView {
        ChoiceView {
            checkout_url: self.checkout_url@,
            canonical_url: self.canonical_url@,
            relationship: self.relationship,
            materialize_canonical: self.materialize_canonical,
        }
    }
}

/// What an answer to the question for the canonical remote says.
#[derive(Debug, PartialEq, Eq)]
pub enum CanonicalPromptAnswer {
    Remote(String),
    NoCanonicalRemote,
    Invalid,
}

pub enum CanonicalAnswerView {
    Remote(Seq<char>),
    NoCanonicalRemote,
    Invalid,
}

impl View for CanonicalPromptAnswer {
    type V = CanonicalAnswerView;

    open spec fn view(&self) -> CanonicalAnswerView {
        match self {
            CanonicalPromptAnswer::Remote(url) => CanonicalAnswerView::Remote(url@),
            CanonicalPromptAnswer::NoCanonicalRemote => CanonicalAnswerView::NoCanonicalRemote,
            CanonicalPromptAnswer::Invalid => CanonicalAnswerView::Invalid,
        }
    }
}

/// Whether a text is a locator.
pub open spec fn is_locator(text: Seq<char>) -> bool {
    parsed_locator(text, parsed_url(trim_text(text))) is Ok
}

/// An answer is a word that skips the question, the number of a remote, or a URL.
/// `usable` says whether the answer, without the white space around it, is a
/// locator. A number that no remote has is no answer.
pub open spec fn canonical_answer(
    answer: Seq<char>,
    remotes: Seq<(Seq<char>, Seq<char>)>,
    usable: bool,
) -> CanonicalAnswerView {
    let text = trim_text(answer);
    if lower(text) == "skip"@ || lower(text) == "none"@ {
        CanonicalAnswerView::NoCanonicalRemote
    } else {
        match parsed_number(text, usize::MAX as nat) {
            Some(n) => if 1 <= n <= remotes.len() {
                CanonicalAnswerView::Remote(remotes[n - 1].1)
            } else {
                CanonicalAnswerView::Invalid
            },
            None => if text.len() > 0 && usable {
                CanonicalAnswerView::Remote(text)
            } else {
                CanonicalAnswerView::Invalid
            },
        }
    }
}

pub fn canonical_answer_from(answer: &str, remotes: &Vec<GitRemote>, usable: bool) -> (r:
    CanonicalPromptAnswer)
    ensures
        r@ == canonical_answer(answer@, remote_views(remotes@), usable),
{
    let text = trim(answer);
    let word = lowercase(text.as_str());
    if word.as_str().eq("skip") || word.as_str().eq("none") {
        return CanonicalPromptAnswer::NoCanonicalRemote;
    }
    match parse_number(text.as_str(), usize::MAX as u64) {
        Some(n) => {
            let count: usize = remotes.len();
            if 1 <= n && n <= count as u64 {
                let index: usize = (n - 1) as usize;
                proof {
                    assert(remote_views(remotes@)[n - 1] == remotes@[n - 1]@);
                }
                CanonicalPromptAnswer::Remote(remotes[index].url.clone())
            } else {
                CanonicalPromptAnswer::Invalid
            }
        },
        None => if !text.as_str().is_empty() && usable {
            CanonicalPromptAnswer::Remote(text)
        } else {
            CanonicalPromptAnswer::Invalid
        },
    }
}

pub fn parse_canonical_prompt_answer(answer: &str, remotes: &Vec<GitRemote>) -> (r:
    CanonicalPromptAnswer)
    ensures
        r@ == canonical_answer(answer@, remote_views(remotes@), is_locator(trim_text(answer@))),
{
    let usable = Locator::parse(trim(answer).as_str()).is_ok();
    canonical_answer_from(answer, remotes, usable)
}

/// An answer to the question which remote the checkout is of: the number of a
/// remote, or a URL. A number that no remote has may still be a URL.
pub open spec fn checkout_answer(
    answer: Seq<char>,
    remotes: Seq<(Seq<char>, Seq<char>)>,
    usable: bool,
) -> Option<Seq<char>> {
    let text = trim_text(answer);
    let number = parsed_number(text, usize::MAX as nat);
    if number is Some && 1 <= number->0 <= remotes.len() {
        Some(remotes[number->0 - 1].1)
    } else if text.len() > 0 && usable {
        Some(text)
    } else {
        None
    }
}

pub fn checkout_answer_from(answer: &str, remotes: &Vec<GitRemote>, usable: bool) -> (r: Option<
    String,
>)
    ensures
        opt_view(r) == checkout_answer(answer@, remote_views(remotes@), usable),
{
    let text = trim(answer);
    match parse_number(text.as_str(), usize::MAX as u64) {
        Some(n) => {
            let count: usize = remotes.len();
            if 1 <= n && n <= count as u64 {
                let index: usize = (n - 1) as usize;
                proof {
                    assert(remote_views(remotes@)[n - 1] == remotes@[n - 1]@);
                }
                return Some(remotes[index].url.clone());
            }
        },
        None => {},
    }
    if !text.as_str().is_empty() && usable {
        Some(text)
    } else {
        None
    }
}

pub fn parse_checkout_prompt_answer(answer: &str, remotes: &Vec<GitRemote>) -> (r: Option<String>)
    ensures
        opt_view(r) == checkout_answer(
            answer@,
            remote_views(remotes@),
            is_locator(trim_text(answer@)),
        ),
{
    let usable = Locator::parse(trim(answer).as_str()).is_ok();
    checkout_answer_from(answer, remotes, usable)
}

/// An answer to the question for the relationship.
pub open spec fn relationship_answer(answer: Seq<char>) -> Option<ManageRelationship> {
    let word = lower(trim_text(answer));
    if word == "1"@ || word == "f"@ || word == "fork"@ {
        Some(ManageRelationship::Fork)
    } else if word == "2"@ || word == "m"@ || word == "mirror"@ {
        Some(ManageRelationship::Mirror)
    } else {
        None
    }
}

pub fn parse_dependent_relationship_answer(answer: &str) -> (r: Option<ManageRelationship>)
    ensures
        r == relationship_answer(answer@),
{
    let word = lowercase(trim(answer).as_str());
    let word = word.as_str();
    if word.eq("1") || word.eq("f") || word.eq("fork") {
        Some(ManageRelationship::Fork)
    } else if word.eq("2") || word.eq("m") || word.eq("mirror") {
        Some(ManageRelationship::Mirror)
    } else {
        None
    }
}

/// An answer to a question of yes or no; nothing is yes.
pub open spec fn yes_no(answer: Seq<char>) -> Option<bool> {
    let word = lower(trim_text(answer));
    if word.len() == 0 || word == "y"@ || word == "yes"@ {
        Some(true)
    } else if word == "n"@ || word == "no"@ {
        Some(false)
    } else {
        None
    }
}

pub fn parse_confirmation(answer: &str) -> (r: Option<bool>)
    ensures
        r == yes_no(answer@),
{
    let word = lowercase(trim(answer).as_str());
    let word = word.as_str();
    if word.is_empty() || word.eq("y") || word.eq("yes") {
        Some(true)
    } else if word.eq("n") || word.eq("no") {
        Some(false)
    } else {
        None
    }
}

/// Which question is open.
#[derive(Debug)]
pub enum ManageStage {
    /// Whether the origin is canonical.
    ConfirmOrigin,
    /// Which repository is canonical.
    Canonical,
    /// Which repository the checkout is of.
    Checkout,
    /// What the checkout is to the canonical repository.
    Relationship { checkout_url: String, canonical_url: String },
    /// The same, with a canonical repository that is not among the remotes.
    DeferredRelationship { checkout_url: String },
    /// Where that repository is.
    DeferredCanonical { checkout_url: String, relationship: ManageRelationship },
    /// None: all is said.
    Chosen(ManageChoice),
}

#[verifier::ext_equal]
pub enum ManageStageView {
    ConfirmOrigin,
    Canonical,
    Checkout,
    Relationship { checkout_url: Seq<char>, canonical_url: Seq<char> },
    DeferredRelationship { checkout_url: Seq<char> },
    DeferredCanonical { checkout_url: Seq<char>, relationship: ManageRelationship },
    Chosen(ChoiceView),
}

impl View for ManageStage {
    type V = ManageStageView;

    open spec fn view(&self) -> ManageStageView {
        match self {
            ManageStage::ConfirmOrigin => ManageStageView::ConfirmOrigin,
            ManageStage::Canonical => ManageStageView::Canonical,
            ManageStage::Checkout => ManageStageView::Checkout,
            ManageStage::Relationship { checkout_url, canonical_url } =>
                ManageStageView::Relationship {
                    checkout_url: checkout_url@,
                    canonical_url: canonical_url@,
                },
            ManageStage::DeferredRelationship { checkout_url } =>
                ManageStageView::DeferredRelationship { checkout_url: checkout_url@ },
            ManageStage::DeferredCanonical { checkout_url, relationship } =>
                ManageStageView::DeferredCanonical {
                    checkout_url: checkout_url@,
                    relationship: *relationship,
                },
            ManageStage::Chosen(choice) => ManageStageView::Chosen(choice@),
        }
    }
}

/// The URL of the remote called `origin`.
pub open spec fn origin_in(remotes: Seq<(Seq<char>, Seq<char>)>, i: int) -> Option<Seq<char>>
    decreases remotes.len() - i,
{
    if i < 0 || i >= remotes.len() {
        None
    } else if remotes[i].0 == "origin"@ {
        Some(remotes[i].1)
    } else {
        origin_in(remotes, i + 1)
    }
}

pub fn origin_of(remotes: &Vec<GitRemote>) -> (r: Option<String>)
    ensures
        opt_view(r) == origin_in(remote_views(remotes@), 0),
{
    let ghost all = remote_views(remotes@);
    let mut i: usize = 0;
    while i < remotes.len()
        invariant
            i <= remotes@.len(),
            all == remote_views(remotes@),
            origin_in(all, i as int) == origin_in(all, 0),
        decreases remotes@.len() - i,
    {
        proof {
            assert(all[i as int] == remotes@[i as int]@);
        }
        if remotes[i].name.as_str().eq("origin") {
            return Some(remotes[i].url.clone());
        }
        i += 1;
    }
    None
}

/// The choice of a checkout that is canonical itself.
pub open spec fn canonical_choice(url: Seq<char>) -> ManageStageView {
    ManageStageView::Chosen(
        ChoiceView {
            checkout_url: url,
            canonical_url: url,
            relationship: ManageRelationship::Canonical,
            materialize_canonical: false,
        },
    )
}

fn chosen_canonical(url: String) -> (r: ManageStage)
    ensures
        r@ == canonical_choice(url@),
{
    ManageStage::Chosen(
        ManageChoice {
            checkout_url: url.clone(),
            canonical_url: url,
            relationship: ManageRelationship::Canonical,
            materialize_canonical: false,
        },
    )
}

/// The question after it is known that no remote is canonical.
pub open spec fn without_canonical(origin: Option<Seq<char>>) -> ManageStageView {
    match origin {
        Some(url) => ManageStageView::DeferredRelationship { checkout_url: url },
        None => ManageStageView::Checkout,
    }
}

/// The first question; none where the origin is taken to be canonical.
pub open spec fn first_stage(remotes: Seq<(Seq<char>, Seq<char>)>, origin_is_canonical: bool)
    -> ManageStageView {
    match origin_in(remotes, 0) {
        Some(url) => if origin_is_canonical {
            canonical_choice(url)
        } else {
            ManageStageView::ConfirmOrigin
        },
        None => if remotes.len() == 0 {
            ManageStageView::Checkout
        } else {
            ManageStageView::Canonical
        },
    }
}

pub fn begin_manage(remotes: &Vec<GitRemote>, origin_is_canonical: bool) -> (r: ManageStage)
    ensures
        r@ == first_stage(remote_views(remotes@), origin_is_canonical),
{
    match origin_of(remotes) {
        Some(url) => if origin_is_canonical {
            chosen_canonical(url)
        } else {
            ManageStage::ConfirmOrigin
        },
        None => if remotes.len() == 0 {
            ManageStage::Checkout
        } else {
            ManageStage::Canonical
        },
    }
}

/// What an answer leads to; nothing where it does not answer the question.
/// `usable` says whether the answer, without the white space around it, is a
/// locator.
pub open spec fn next_stage(
    remotes: Seq<(Seq<char>, Seq<char>)>,
    stage: ManageStageView,
    answer: Seq<char>,
    usable: bool,
) -> Option<ManageStageView> {
    let origin = origin_in(remotes, 0);
    match stage {
        ManageStageView::ConfirmOrigin => match (yes_no(answer), origin) {
            (Some(true), Some(url)) => Some(canonical_choice(url)),
            (Some(_), _) => Some(ManageStageView::Canonical),
            (None, _) => None,
        },
        ManageStageView::Canonical => match canonical_answer(answer, remotes, usable) {
            CanonicalAnswerView::Invalid => None,
            CanonicalAnswerView::NoCanonicalRemote => Some(without_canonical(origin)),
            CanonicalAnswerView::Remote(url) => match origin {
                Some(checkout) => if url == checkout {
                    Some(canonical_choice(url))
                } else {
                    Some(
                        ManageStageView::Relationship { checkout_url: checkout, canonical_url: url },
                    )
                },
                None => Some(canonical_choice(url)),
            },
        },
        ManageStageView::Checkout => match if remotes.len() == 0 {
            if trim_text(answer).len() > 0 {
                Some(trim_text(answer))
            } else {
                None
            }
        } else {
            checkout_answer(answer, remotes, usable)
        } {
            Some(url) => Some(ManageStageView::DeferredRelationship { checkout_url: url }),
            None => None,
        },
        ManageStageView::Relationship { checkout_url, canonical_url } => match relationship_answer(
            answer,
        ) {
            Some(relationship) => Some(
                ManageStageView::Chosen(
                    ChoiceView {
                        checkout_url,
                        canonical_url,
                        relationship,
                        materialize_canonical: true,
                    },
                ),
            ),
            None => None,
        },
        ManageStageView::DeferredRelationship { checkout_url } => match relationship_answer(
            answer,
        ) {
            Some(relationship) => Some(
                ManageStageView::DeferredCanonical { checkout_url, relationship },
            ),
            None => None,
        },
        ManageStageView::DeferredCanonical { checkout_url, relationship } => if trim_text(
            answer,
        ).len() > 0 {
            Some(
                ManageStageView::Chosen(
                    ChoiceView {
                        checkout_url,
                        canonical_url: trim_text(answer),
                        relationship,
                        materialize_canonical: false,
                    },
                ),
            )
        } else {
            None
        },
        ManageStageView::Chosen(_) => None,
    }
}

pub open spec fn opt_stage(o: Option<ManageStage>) -> Option<ManageStageView> {
    match o {
        Some(stage) => Some(stage@),
        None => None,
    }
}

fn given_url(answer: &str) -> (r: Option<String>)
    ensures
        opt_view(r) == if trim_text(answer@).len() > 0 {
            Some(trim_text(answer@))
        } else {
            None
        },
{
    let text = trim(answer);
    if text.as_str().is_empty() {
        None
    } else {
        Some(text)
    }
}

pub fn advance_with(remotes: &Vec<GitRemote>, stage: &ManageStage, answer: &str, usable: bool)
    -> (r: Option<ManageStage>)
    ensures
        opt_stage(r) == next_stage(remote_views(remotes@), stage@, answer@, usable),
{
    match stage {
        ManageStage::ConfirmOrigin => match parse_confirmation(answer) {
            Some(yes) => {
                if yes {
                    match origin_of(remotes) {
                        Some(url) => {
                            return Some(chosen_canonical(url));
                        },
                        None => {},
                    }
                }
                Some(ManageStage::Canonical)
            },
            None => None,
        },
        ManageStage::Canonical => match canonical_answer_from(answer, remotes, usable) {
            CanonicalPromptAnswer::Invalid => None,
            CanonicalPromptAnswer::NoCanonicalRemote => match origin_of(remotes) {
                Some(url) => Some(ManageStage::DeferredRelationship { checkout_url: url }),
                None => Some(ManageStage::Checkout),
            },
            CanonicalPromptAnswer::Remote(url) => match origin_of(remotes) {
                Some(checkout_url) => if url.as_str().eq(checkout_url.as_str()) {
                    Some(chosen_canonical(url))
                } else {
                    Some(ManageStage::Relationship { checkout_url, canonical_url: url })
                },
                None => Some(chosen_canonical(url)),
            },
        },
        ManageStage::Checkout => {
            let url = if remotes.len() == 0 {
                given_url(answer)
            } else {
                checkout_answer_from(answer, remotes, usable)
            };
            match url {
                Some(url) => Some(ManageStage::DeferredRelationship { checkout_url: url }),
                None => None,
            }
        },
        ManageStage::Relationship { checkout_url, canonical_url } =>
            match parse_dependent_relationship_answer(answer) {
                Some(relationship) => Some(
                    ManageStage::Chosen(
                        ManageChoice {
                            checkout_url: checkout_url.clone(),
                            canonical_url: canonical_url.clone(),
                            relationship,
                            materialize_canonical: true,
                        },
                    ),
                ),
                None => None,
            },
        ManageStage::DeferredRelationship { checkout_url } =>
            match parse_dependent_relationship_answer(answer) {
                Some(relationship) => Some(
                    ManageStage::DeferredCanonical {
                        checkout_url: checkout_url.clone(),
                        relationship,
                    },
                ),
                None => None,
            },
        ManageStage::DeferredCanonical { checkout_url, relationship } => match given_url(answer) {
            Some(url) => Some(
                ManageStage::Chosen(
                    ManageChoice {
                        checkout_url: checkout_url.clone(),
                        canonical_url: url,
                        relationship: *relationship,
                        materialize_canonical: false,
                    },
                ),
            ),
            None => None,
        },
        ManageStage::Chosen(_) => None,
    }
}

/// What an answer leads to.
pub fn advance(remotes: &Vec<GitRemote>, stage: &ManageStage, answer: &str) -> (r: Option<
    ManageStage,
>)
    ensures
        opt_stage(r) == next_stage(
            remote_views(remotes@),
            stage@,
            answer@,
            is_locator(trim_text(answer@)),
        ),
{
    let usable = Locator::parse(trim(answer).as_str()).is_ok();
    advance_with(remotes, stage, answer, usable)
}

/// What holds of each question: a canonical repository that is asked about differs
/// from the checkout's, and a choice is canonical exactly when they are the same.
pub open spec fn stage_sound(stage: ManageStageView) -> bool {
    match stage {
        ManageStageView::Relationship { checkout_url, canonical_url } => checkout_url
            != canonical_url,
        ManageStageView::DeferredCanonical { relationship, .. } => relationship
            != ManageRelationship::Canonical,
        ManageStageView::Chosen(choice) => {
            &&& choice.relationship == ManageRelationship::Canonical ==> choice.checkout_url
                == choice.canonical_url && !choice.materialize_canonical
            &&& choice.materialize_canonical ==> choice.checkout_url != choice.canonical_url
        },
        _ => true,
    }
}

/// Whatever is answered, a checkout that is chosen to be canonical has the
/// canonical URL, and a canonical repository is brought in only next to a checkout
/// of another one.
pub proof fn choices_are_sound(
    remotes: Seq<(Seq<char>, Seq<char>)>,
    origin_is_canonical: bool,
    stage: ManageStageView,
    answer: Seq<char>,
    usable: bool,
)
    ensures
        stage_sound(first_stage(remotes, origin_is_canonical)),
        stage_sound(stage) ==> (next_stage(remotes, stage, answer, usable) matches Some(next)
            ==> stage_sound(next)),
{
}

/// The remotes as they are offered, one to a line.
pub open spec fn remote_list(remotes: Seq<(Seq<char>, Seq<char>)>) -> Seq<char>
    decreases remotes.len(),
{
    if remotes.len() == 0 {
        Seq::empty()
    } else {
        remote_list(remotes.drop_last()) + ("  "@ + decimal(remotes.len()) + ". "@
            + remotes.last().0 + " "@ + remotes.last().1 + "\n"@)
    }
}

fn list_remotes(remotes: &Vec<GitRemote>) -> (r: String)
    ensures
        r@ == remote_list(remote_views(remotes@)),
{
    let ghost all = remote_views(remotes@);
    let mut text = String::new();
    proof {
        assert(text@ =~= remote_list(all.take(0)));
    }
    let mut i: usize = 0;
    while i < remotes.len()
        invariant
            i <= remotes@.len(),
            all == remote_views(remotes@),
            text@ == remote_list(all.take(i as int)),
        decreases remotes@.len() - i,
    {
        proof {
            assert(all.take(i + 1).drop_last() =~= all.take(i as int));
            assert(all.take(i + 1).last() == remotes@[i as int]@);
        }
        let mut line = "  ".to_owned();
        line.append(decimal_text(i as u128 + 1).as_str());
        line.append(". ");
        line.append(remotes[i].name.as_str());
        line.append(" ");
        line.append(remotes[i].url.as_str());
        line.append("\n");
        text.append(line.as_str());
        i += 1;
    }
    proof {
        assert(all.take(i as int) =~= all);
    }
    text
}

/// What is shown before a question is first asked.
pub open spec fn introduction(stage: ManageStageView, remotes: Seq<(Seq<char>, Seq<char>)>) -> Seq<
    char,
> {
    match stage {
        ManageStageView::Canonical => "Select the canonical remote:\n"@ + remote_list(remotes)
            + "  skip. Canonical is not configured as a remote\n  Or paste a canonical URL directly.\n"@,
        ManageStageView::Checkout => if remotes.len() == 0 {
            Seq::empty()
        } else {
            "Select the remote that identifies this checkout:\n"@ + remote_list(remotes)
                + "  Or paste a checkout URL directly.\n"@
        },
        ManageStageView::Relationship { .. } => relationship_introduction(),
        ManageStageView::DeferredRelationship { .. } => relationship_introduction(),
        _ => Seq::empty(),
    }
}

pub open spec fn relationship_introduction() -> Seq<char> {
    "This checkout is not canonical. Select its relationship to the canonical repository:\n  1. fork\n  2. mirror\n"@
}

pub fn introduce(stage: &ManageStage, remotes: &Vec<GitRemote>) -> (r: String)
    ensures
        r@ == introduction(stage@, remote_views(remotes@)),
{
    match stage {
        ManageStage::Canonical => {
            let mut text = "Select the canonical remote:\n".to_owned();
            text.append(list_remotes(remotes).as_str());
            text.append(
                "  skip. Canonical is not configured as a remote\n  Or paste a canonical URL directly.\n",
            );
            text
        },
        ManageStage::Checkout => {
            if remotes.len() == 0 {
                return String::new();
            }
            let mut text = "Select the remote that identifies this checkout:\n".to_owned();
            text.append(list_remotes(remotes).as_str());
            text.append("  Or paste a checkout URL directly.\n");
            text
        },
        ManageStage::Relationship { .. } => {
            "This checkout is not canonical. Select its relationship to the canonical repository:\n  1. fork\n  2. mirror\n".to_owned()
        },
        ManageStage::DeferredRelationship { .. } => {
            "This checkout is not canonical. Select its relationship to the canonical repository:\n  1. fork\n  2. mirror\n".to_owned()
        },
        _ => String::new(),
    }
}

/// The question itself.
pub open spec fn question(stage: ManageStageView, remotes: Seq<(Seq<char>, Seq<char>)>) -> Seq<
    char,
> {
    match stage {
        ManageStageView::ConfirmOrigin => "Use origin as canonical? ["@ + (match origin_in(
            remotes,
            0,
        ) {
            Some(url) => url,
            None => Seq::empty(),
        }) + "] [Y/n] "@,
        ManageStageView::Canonical => "canonical remote [1-"@ + decimal(remotes.len())
            + "], URL, or skip: "@,
        ManageStageView::Checkout => if remotes.len() == 0 {
            "checkout URL: "@
        } else {
            "checkout remote [1-"@ + decimal(remotes.len()) + "] or URL: "@
        },
        ManageStageView::Relationship { .. } => "relationship [1-2, fork, or mirror]: "@,
        ManageStageView::DeferredRelationship { .. } => "relationship [1-2, fork, or mirror]: "@,
        ManageStageView::DeferredCanonical { .. } => "canonical URL (not cloned now): "@,
        ManageStageView::Chosen(_) => Seq::empty(),
    }
}

pub fn ask(stage: &ManageStage, remotes: &Vec<GitRemote>) -> (r: String)
    ensures
        r@ == question(stage@, remote_views(remotes@)),
{
    match stage {
        ManageStage::ConfirmOrigin => {
            let mut text = "Use origin as canonical? [".to_owned();
            match origin_of(remotes) {
                Some(url) => text.append(url.as_str()),
                None => {
                    proof {
                        assert(text@ + Seq::<char>::empty() =~= text@);
                    }
                },
            }
            text.append("] [Y/n] ");
            text
        },
        ManageStage::Canonical => {
            let mut text = "canonical remote [1-".to_owned();
            text.append(decimal_text(remotes.len() as u128).as_str());
            text.append("], URL, or skip: ");
            text
        },
        ManageStage::Checkout => {
            if remotes.len() == 0 {
                return "checkout URL: ".to_owned();
            }
            let mut text = "checkout remote [1-".to_owned();
            text.append(decimal_text(remotes.len() as u128).as_str());
            text.append("] or URL: ");
            text
        },
        ManageStage::Relationship { .. } => "relationship [1-2, fork, or mirror]: ".to_owned(),
        ManageStage::DeferredRelationship { .. } => {
            "relationship [1-2, fork, or mirror]: ".to_owned()
        },
        ManageStage::DeferredCanonical { .. } => "canonical URL (not cloned now): ".to_owned(),
        ManageStage::Chosen(_) => String::new(),
    }
}

/// What is said of an answer that does not answer the question.
pub open spec fn hint(stage: ManageStageView, remotes: Seq<(Seq<char>, Seq<char>)>) -> Seq<char> {
    match stage {
        ManageStageView::ConfirmOrigin => "enter y or n"@,
        ManageStageView::Canonical => "enter a number from 1 to "@ + decimal(remotes.len())
            + ", a canonical URL, or skip"@,
        ManageStageView::Checkout => if remotes.len() == 0 {
            "checkout URL is required"@
        } else {
            "enter a number from 1 to "@ + decimal(remotes.len()) + " or a checkout URL"@
        },
        ManageStageView::Relationship { .. } => "enter fork or mirror"@,
        ManageStageView::DeferredRelationship { .. } => "enter fork or mirror"@,
        ManageStageView::DeferredCanonical { .. } => "canonical URL (not cloned now) is required"@,
        ManageStageView::Chosen(_) => Seq::empty(),
    }
}

pub fn explain(stage: &ManageStage, remotes: &Vec<GitRemote>) -> (r: String)
    ensures
        r@ == hint(stage@, remote_views(remotes@)),
{
    match stage {
        ManageStage::ConfirmOrigin => "enter y or n".to_owned(),
        ManageStage::Canonical => {
            let mut text = "enter a number from 1 to ".to_owned();
            text.append(decimal_text(remotes.len() as u128).as_str());
            text.append(", a canonical URL, or skip");
            text
        },
        ManageStage::Checkout => {
            if remotes.len() == 0 {
                return "checkout URL is required".to_owned();
            }
            let mut text = "enter a number from 1 to ".to_owned();
            text.append(decimal_text(remotes.len() as u128).as_str());
            text.append(" or a checkout URL");
            text
        },
        ManageStage::Relationship { .. } => "enter fork or mirror".to_owned(),
        ManageStage::DeferredRelationship { .. } => "enter fork or mirror".to_owned(),
        ManageStage::DeferredCanonical { .. } => {
            "canonical URL (not cloned now) is required".to_owned()
        },
        ManageStage::Chosen(_) => String::new(),
    }
}

/// Where a checkout ends up, and how it gets there.
#[derive(Debug)]
pub struct ManagedMove {
    pub path: String,
    pub moved_from: Option<String>,
    pub stages: Vec<Stage>,
}

#[verifier::ext_equal]
pub struct ManagedMoveView {
    pub path: Seq<char>,
    pub moved_from: Option<Seq<char>>,
    pub stages: Seq<StageView>,
}

impl View for ManagedMove {
    type V = ManagedMoveView;

    open spec fn view(&self) -> ManagedMoveView {
        ManagedMoveView {
            path: self.path@,
            moved_from: opt_view(self.moved_from),
            stages: stage_views(self.stages@),
        }
    }
}

/// A checkout moves to the place of its locator, unless it is there. It is not
/// moved onto something else, nor into itself. `in_place` says whether the disk
/// resolves both places to one, and `occupied` whether something is at the new one.
pub open spec fn managed_move(
    clone_root: Seq<char>,
    repo_root: Seq<char>,
    locator: LocatorView,
    in_place: bool,
    occupied: bool,
) -> Result<ManagedMoveView, Seq<char>> {
    let expected = placed(clone_root, locator);
    if in_place {
        Ok(ManagedMoveView { path: repo_root, moved_from: None, stages: Seq::empty() })
    } else if occupied {
        Err("managed path for "@ + locator.key() + " already exists: "@ + expected)
    } else if path_under(expected, repo_root) {
        Err("cannot move "@ + repo_root + " into its own subtree at "@ + expected)
    } else {
        Ok(
            ManagedMoveView {
                path: expected,
                moved_from: Some(repo_root),
                stages: seq![
                    plain_stage(
                        seq![
                            StepView::MakeParent { path: expected },
                            StepView::Rename {
                                from: repo_root,
                                to: expected,
                                purpose: moving("moving existing checkout "@, repo_root, expected),
                            },
                        ],
                    ),
                ],
            },
        )
    }
}

pub fn move_repo_into_managed_path(
    config: &Config,
    repo_root: &str,
    locator: &Locator,
    in_place: bool,
    occupied: bool,
) -> (r: Result<ManagedMove, Error>)
    ensures
        outcome(r) == managed_move(config@.clone_root, repo_root@, locator@, in_place, occupied),
{
    let expected = locator_path(config.clone_root.as_str(), locator);
    if in_place {
        return Ok(
            ManagedMove { path: repo_root.to_owned(), moved_from: None, stages: no_stages() },
        );
    }
    if occupied {
        let mut text = "managed path for ".to_owned();
        text.append(locator.key().as_str());
        text.append(" already exists: ");
        text.append(expected.as_str());
        return Err(Error::new(text));
    }
    if path_starts_with(expected.as_str(), repo_root) {
        let mut text = "cannot move ".to_owned();
        text.append(repo_root);
        text.append(" into its own subtree at ");
        text.append(expected.as_str());
        return Err(Error::new(text));
    }
    let mut steps = one_step(Step::MakeParent { path: expected.clone() });
    steps.push(
        rename(
            repo_root,
            expected.as_str(),
            moving_text("moving existing checkout ", repo_root, expected.as_str()),
        ),
    );
    let stages = one_stage(plainly(steps));
    proof {
        assert(stage_views(stages@) =~~= seq![
            plain_stage(
                seq![
                    StepView::MakeParent { path: expected@ },
                    StepView::Rename {
                        from: repo_root@,
                        to: expected@,
                        purpose: moving("moving existing checkout "@, repo_root@, expected@),
                    },
                ],
            ),
        ]);
    }
    Ok(ManagedMove { path: expected, moved_from: Some(repo_root.to_owned()), stages })
}

/// Whether a directory that was left empty may be removed: only below the root,
/// and never the root itself. Both are given as the disk resolves them.
pub fn may_prune(current: &str, root: &str) -> (r: bool)
    ensures
        r == (path_under(current@, root@) && !path_eq(current@, root@)),
{
    path_starts_with(current, root) && !same_path(current, root)
}

/// What is done about the canonical repository of a checkout.
#[derive(Debug, Clone, Copy, PartialEq, Eq, Structural)]
pub enum ManageRoute {
    /// The checkout is canonical.
    Canonical,
    /// The checkout of the fork or mirror becomes the canonical one, and shares its
    /// Git directory with a worktree.
    Seed,
    /// The checkout shares the Git directory of the canonical one that is there.
    Share,
    /// The canonical repository is only noted.
    Note,
}

pub open spec fn route_for(
    relationship: ManageRelationship,
    materialize_canonical: bool,
    canonical_exists: bool,
) -> ManageRoute {
    if relationship == ManageRelationship::Canonical {
        ManageRoute::Canonical
    } else if !materialize_canonical {
        ManageRoute::Note
    } else if canonical_exists {
        ManageRoute::Share
    } else {
        ManageRoute::Seed
    }
}

pub fn manage_route(
    relationship: ManageRelationship,
    materialize_canonical: bool,
    canonical_exists: bool,
) -> (r: ManageRoute)
    ensures
        r == route_for(relationship, materialize_canonical, canonical_exists),
{
    match relationship {
        ManageRelationship::Canonical => ManageRoute::Canonical,
        _ => if !materialize_canonical {
            ManageRoute::Note
        } else if canonical_exists {
            ManageRoute::Share
        } else {
            ManageRoute::Seed
        },
    }
}

/// A checkout whose canonical repository is only noted gets remotes for both.
pub open spec fn noted_remotes(
    repo_root: Seq<char>,
    checkout: LocatorView,
    checkout_url: Seq<char>,
    canonical_url: Seq<char>,
    relationship: ManageRelationship,
    has_origin: bool,
) -> Seq<StageView> {
    let dir = repo_root;
    let both = seq![
        StepView::EnsureRemote { dir, name: "canonical"@, url: canonical_url },
        StepView::EnsureRemote {
            dir,
            name: remote_name(relationship.name(), checkout),
            url: checkout_url,
        },
    ];
    seq![
        plain_stage(
            if has_origin {
                both
            } else {
                both.push(StepView::EnsureRemote { dir, name: "origin"@, url: checkout_url })
            },
        ),
    ]
}

pub fn ensure_deferred_dependent_remotes(
    repo_root: &str,
    checkout_locator: &Locator,
    checkout_url: &str,
    canonical_url: &str,
    relationship: ManageRelationship,
    has_origin: bool,
) -> (r: Vec<Stage>)
    ensures
        stage_views(r@) == noted_remotes(
            repo_root@,
            checkout_locator@,
            checkout_url@,
            canonical_url@,
            relationship,
            has_origin,
        ),
{
    let name = related_remote_name(relationship.as_str(), checkout_locator);
    let mut steps = one_step(ensure_remote(repo_root, "canonical", canonical_url));
    steps.push(ensure_remote(repo_root, name.as_str(), checkout_url));
    if !has_origin {
        steps.push(ensure_remote(repo_root, "origin", checkout_url));
    }
    let stages = one_stage(plainly(steps));
    proof {
        assert(stage_views(stages@) =~~= noted_remotes(
            repo_root@,
            checkout_locator@,
            checkout_url@,
            canonical_url@,
            relationship,
            has_origin,
        ));
    }
    stages
}

/// The locators among the URLs of remotes, in order; a URL that is none is passed
/// over.
pub open spec fn locators_in(remotes: Seq<(Seq<char>, Seq<char>)>) -> Seq<LocatorView>
    decreases remotes.len(),
{
    if remotes.len() == 0 {
        Seq::empty()
    } else {
        let before = locators_in(remotes.drop_last());
        let url = remotes.last().1;
        match parsed_locator(url, parsed_url(trim_text(url))) {
            Ok(locator) => before.push(locator),
            Err(_) => before,
        }
    }
}

pub fn remote_locators(remotes: &Vec<GitRemote>) -> (r: Vec<Locator>)
    ensures
        locator_views(r@) == locators_in(remote_views(remotes@)),
        r@.len() <= remotes@.len(),
{
    let ghost all = remote_views(remotes@);
    let mut found: Vec<Locator> = Vec::new();
    proof {
        assert(locator_views(found@) =~= locators_in(all.take(0)));
    }
    let mut i: usize = 0;
    while i < remotes.len()
        invariant
            i <= remotes@.len(),
            all == remote_views(remotes@),
            found@.len() <= i,
            locator_views(found@) == locators_in(all.take(i as int)),
        decreases remotes@.len() - i,
    {
        proof {
            assert(all.take(i + 1).drop_last() =~= all.take(i as int));
            assert(all.take(i + 1).last() == remotes@[i as int]@);
        }
        match Locator::parse(remotes[i].url.as_str()) {
            Ok(locator) => {
                let ghost before = found@;
                let ghost added = locator@;
                found.push(locator);
                proof {
                    assert(locator_views(found@) =~= locator_views(before).push(added));
                }
            },
            Err(_) => {},
        }
        i += 1;
    }
    proof {
        assert(all.take(i as int) =~= all);
    }
    found
}

/// The registry once the remotes of a canonical checkout are recorded: each other
/// locator is a fork of it, at the same place.
pub open spec fn with_remotes(
    view: RegistryView,
    canonical: LocatorView,
    canonical_id: i64,
    repo_root: Seq<char>,
    locators: Seq<LocatorView>,
) -> RegistryView
    decreases locators.len(),
{
    if locators.len() == 0 {
        view
    } else {
        let before = with_remotes(view, canonical, canonical_id, repo_root, locators.drop_last());
        let locator = locators.last();
        if locator == canonical {
            before
        } else {
            let added = with_repo(before, locator, repo_root, Some(canonical.key()));
            RegistryView {
                forks: forked(
                    added.forks,
                    repo_id_for(before.repos, locator.key()),
                    canonical_id,
                ),
                ..added
            }
        }
    }
}

/// Records a checkout that is canonical, and its remotes as forks of it.
pub fn record_canonical_checkout(
    registry: &mut Registry,
    canonical: &Locator,
    repo_root: &str,
    locators: &Vec<Locator>,
) -> (r: Result<(), Error>)
    requires
        top_repo_id(old(registry)@.repos) + locators@.len() + 1 < i64::MAX,
    ensures
        r is Ok,
        final(registry)@ == with_remotes(
            with_repo(old(registry)@, canonical@, repo_root@, None),
            canonical@,
            repo_id_for(old(registry)@.repos, canonical@.key()),
            repo_root@,
            locator_views(locators@),
        ),
{
    let ghost before = registry@;
    proof {
        lemma_upserted(before.repos, canonical@, repo_root@, None);
    }
    let canonical_id = registry.upsert_repo(canonical, repo_root, None);
    let ghost start = registry@;
    let ghost all = locator_views(locators@);
    proof {
        assert(with_remotes(start, canonical@, canonical_id, repo_root@, all.take(0)) == start);
    }
    let mut i: usize = 0;
    while i < locators.len()
        invariant
            i <= locators@.len(),
            all == locator_views(locators@),
            registry@ == with_remotes(
                start,
                canonical@,
                canonical_id,
                repo_root@,
                all.take(i as int),
            ),
            known(registry@.repos, canonical_id),
            top_repo_id(registry@.repos) <= top_repo_id(start.repos) + i,
            top_repo_id(start.repos) + locators@.len() < i64::MAX,
        decreases locators@.len() - i,
    {
        proof {
            assert(all.take(i + 1).drop_last() =~= all.take(i as int));
            assert(all.take(i + 1).last() == locators@[i as int]@);
        }
        if !locators[i].same(canonical) {
            let ghost now = registry@;
            proof {
                lemma_upserted(
                    now.repos,
                    locators@[i as int]@,
                    repo_root@,
                    Some(canonical@.key()),
                );
            }
            let id = registry.upsert_repo(&locators[i], repo_root, Some(canonical.key()));
            match registry.record_fork(id, canonical_id) {
                Ok(()) => {},
                Err(error) => {
                    return Err(error);
                },
            }
        }
        i += 1;
    }
    proof {
        assert(all.take(i as int) =~= all);
    }
    Ok(())
}

} // verus!
