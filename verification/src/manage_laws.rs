//! What holds of every checkout that is taken into management.
use crate::locator::{parsed_locator, parsed_url, placed, LocatorView};
use crate::manage::{
    canonical_answer, checkout_answer, first_stage, locators_in, managed_move, next_stage,
    noted_remotes, origin_in, relationship_answer, route_for, with_remotes, yes_no,
    CanonicalAnswerView, ChoiceView, ManageRelationship, ManageRoute, ManageStageView,
};
use crate::naming::remote_name;
use crate::paths::path_under;
use crate::registry::{repo_id_for, ForkRow, RegistryView};
use crate::row_laws::{forks_are_noted_once, lemma_recorded};
use crate::share_laws::{does, every_step, renames};
use crate::steps::StepView;
use crate::text::{decimal, is_digit, lemma_decimal_reads_back, lower, parsed_number, trim_text};
use crate::text_laws::trimmed_texts_stay;
use vstd::prelude::*;

verus! {

/// A checkout that is at its place stays. Any other is moved, once and as a whole, to
/// the place of its locator, for which room is made first; but not onto something else
/// and not into itself.
pub proof fn checkouts_move_to_their_place(
    clone_root: Seq<char>,
    repo_root: Seq<char>,
    locator: LocatorView,
    in_place: bool,
    occupied: bool,
)
    ensures
        ({
            let plan = managed_move(clone_root, repo_root, locator, in_place, occupied);
            let place = placed(clone_root, locator);
            &&& plan is Ok <==> in_place || !(occupied || path_under(place, repo_root))
            &&& plan is Ok && in_place ==> plan->Ok_0.path == repo_root
                && plan->Ok_0.moved_from is None && plan->Ok_0.stages.len() == 0
            &&& plan is Ok && !in_place ==> {
                let steps = plan->Ok_0.stages[0].steps;
                &&& plan->Ok_0.path == place
                &&& plan->Ok_0.moved_from == Some(repo_root)
                &&& plan->Ok_0.stages.len() == 1
                &&& steps.len() == 2
                &&& steps[0] == (StepView::MakeParent { path: place })
                &&& renames(steps[1], repo_root, place)
            }
        }),
{
}

/// A canonical checkout is recorded as such. Of any other the canonical repository is
/// only noted unless it is to be brought in; if it is, the checkout shares it where it
/// is there and becomes it where it is not.
pub proof fn routes_follow_the_choice(
    relationship: ManageRelationship,
    materialize: bool,
    exists: bool,
)
    ensures
        ({
            let route = route_for(relationship, materialize, exists);
            let canonical = relationship == ManageRelationship::Canonical;
            &&& route == ManageRoute::Canonical <==> canonical
            &&& route == ManageRoute::Note <==> !canonical && !materialize
            &&& route == ManageRoute::Share <==> !canonical && materialize && exists
            &&& route == ManageRoute::Seed <==> !canonical && materialize && !exists
        }),
{
}

/// A checkout whose canonical repository is only noted gets a remote for that one, and
/// one of its own; it gets an origin, which is its own URL, exactly where it has none.
pub proof fn noted_repositories_are_remotes(
    repo_root: Seq<char>,
    checkout: LocatorView,
    checkout_url: Seq<char>,
    canonical_url: Seq<char>,
    relationship: ManageRelationship,
    has_origin: bool,
)
    ensures
        ({
            let plan = noted_remotes(
                repo_root,
                checkout,
                checkout_url,
                canonical_url,
                relationship,
                has_origin,
            );
            let kind = match relationship {
                ManageRelationship::Canonical => "canonical"@,
                ManageRelationship::Fork => "fork"@,
                ManageRelationship::Mirror => "mirror"@,
            };
            let canonical = StepView::EnsureRemote {
                dir: repo_root,
                name: "canonical"@,
                url: canonical_url,
            };
            let own = StepView::EnsureRemote {
                dir: repo_root,
                name: remote_name(kind, checkout),
                url: checkout_url,
            };
            let origin = StepView::EnsureRemote {
                dir: repo_root,
                name: "origin"@,
                url: checkout_url,
            };
            &&& does(plan, canonical)
            &&& does(plan, own)
            &&& !has_origin ==> does(plan, origin)
            &&& every_step(
                plan,
                |step: StepView|
                    step == canonical || step == own || (!has_origin && step == origin),
            )
        }),
{
    let plan = noted_remotes(
        repo_root,
        checkout,
        checkout_url,
        canonical_url,
        relationship,
        has_origin,
    );
    let steps = plan[0].steps;
    assert(steps[0] is EnsureRemote);
    assert(steps[1] is EnsureRemote);
    if !has_origin {
        assert(steps[2] is EnsureRemote);
    }
}

/// A remote has a URL that reads as the locator.
pub open spec fn some_remote_is(remotes: Seq<(Seq<char>, Seq<char>)>, locator: LocatorView) -> bool {
    exists|i: int|
        0 <= i < remotes.len() && parsed_locator(
            (#[trigger] remotes[i]).1,
            parsed_url(trim_text(remotes[i].1)),
        ) == Ok::<LocatorView, Seq<char>>(locator)
}

/// The locators of remotes are those that their URLs read as, and no others.
pub proof fn remotes_give_their_locators(
    remotes: Seq<(Seq<char>, Seq<char>)>,
    locator: LocatorView,
)
    ensures
        locators_in(remotes).contains(locator) <==> some_remote_is(remotes, locator),
    decreases remotes.len(),
{
    if remotes.len() > 0 {
        let rest = remotes.drop_last();
        let last = remotes.last();
        let before = locators_in(rest);
        let list = locators_in(remotes);
        remotes_give_their_locators(rest, locator);
        assert(remotes[remotes.len() - 1] == last);
        let read = parsed_locator(last.1, parsed_url(trim_text(last.1)));
        if some_remote_is(remotes, locator) {
            let i = choose|i: int|
                0 <= i < remotes.len() && parsed_locator(
                    (#[trigger] remotes[i]).1,
                    parsed_url(trim_text(remotes[i].1)),
                ) == Ok::<LocatorView, Seq<char>>(locator);
            if i < rest.len() {
                assert(rest[i] == remotes[i]);
                let m = choose|m: int| 0 <= m < before.len() && before[m] == locator;
                assert(list[m] == locator);
            } else {
                assert(list[before.len() as int] == locator);
            }
        }
        if list.contains(locator) {
            let m = choose|m: int| 0 <= m < list.len() && list[m] == locator;
            if m < before.len() {
                assert(before[m] == locator);
                let i = choose|i: int|
                    0 <= i < rest.len() && parsed_locator(
                        (#[trigger] rest[i]).1,
                        parsed_url(trim_text(rest[i].1)),
                    ) == Ok::<LocatorView, Seq<char>>(locator);
                assert(remotes[i] == rest[i]);
            } else {
                assert(read == Ok::<LocatorView, Seq<char>>(locator));
            }
        }
    }
}

/// A repository under the locator at the path, recorded as a fork of the one with the
/// number.
pub open spec fn forked_from(
    view: RegistryView,
    locator: LocatorView,
    path: Seq<char>,
    canonical_id: i64,
) -> bool {
    exists|k: int|
        0 <= k < view.repos.len() && (#[trigger] view.repos[k]).identity == locator.authority + "/"@
            + locator.remote_path && view.repos[k].path == path && view.forks.contains(
            ForkRow { fork_repo_id: view.repos[k].id, canonical_repo_id: canonical_id },
        )
}

/// Each remote of a canonical checkout that is another repository is recorded as a fork
/// of it, at the same place. No other row is made: every new fork is one of that
/// repository.
pub proof fn remotes_become_forks(
    view: RegistryView,
    canonical: LocatorView,
    canonical_id: i64,
    repo_root: Seq<char>,
    locators: Seq<LocatorView>,
)
    ensures
        ({
            let after = with_remotes(view, canonical, canonical_id, repo_root, locators);
            &&& forall|i: int|
                0 <= i < locators.len() && #[trigger] locators[i] != canonical ==> forked_from(
                    after,
                    locators[i],
                    repo_root,
                    canonical_id,
                )
            &&& forall|row: ForkRow| #[trigger]
                after.forks.contains(row) ==> view.forks.contains(row) || row.canonical_repo_id
                    == canonical_id
            &&& forall|row: ForkRow| view.forks.contains(row) ==> #[trigger] after.forks.contains(row)
            &&& after.related == view.related
            &&& after.aliases == view.aliases
            &&& after.worktrees == view.worktrees
            &&& after.fetches == view.fetches
            &&& after.successors == view.successors
        }),
    decreases locators.len(),
{
    if locators.len() > 0 {
        let rest = locators.drop_last();
        let locator = locators.last();
        let before = with_remotes(view, canonical, canonical_id, repo_root, rest);
        let after = with_remotes(view, canonical, canonical_id, repo_root, locators);
        remotes_become_forks(view, canonical, canonical_id, repo_root, rest);
        if locator != canonical {
            let id = repo_id_for(before.repos, locator.key());
            let at = lemma_recorded(before.repos, locator, repo_root, Some(canonical.key()));
            forks_are_noted_once(before.forks, id, canonical_id);
            assert(after.repos[at].id == id);
        }
        assert forall|i: int|
            0 <= i < locators.len() && #[trigger] locators[i] != canonical implies forked_from(
            after,
            locators[i],
            repo_root,
            canonical_id,
        ) by {
            if i < rest.len() {
                assert(rest[i] == locators[i]);
                assert(forked_from(before, rest[i], repo_root, canonical_id));
                let k = choose|k: int|
                    0 <= k < before.repos.len() && (#[trigger] before.repos[k]).identity
                        == rest[i].authority + "/"@ + rest[i].remote_path && before.repos[k].path
                        == repo_root && before.forks.contains(
                        ForkRow {
                            fork_repo_id: before.repos[k].id,
                            canonical_repo_id: canonical_id,
                        },
                    );
                assert(after.repos[k].id == before.repos[k].id);
            }
        }
    }
}

proof fn lemma_numeral(n: nat)
    requires
        1 <= n <= usize::MAX,
    ensures
        trim_text(decimal(n)) == decimal(n),
        parsed_number(decimal(n), usize::MAX as nat) == Some(n),
        lower(decimal(n)) != "skip"@,
        lower(decimal(n)) != "none"@,
{
    let s = decimal(n);
    lemma_decimal_reads_back(n, usize::MAX as nat);
    assert(is_digit(s[0]));
    assert(is_digit(s[s.len() - 1]));
    trimmed_texts_stay(s);
    reveal_strlit("skip");
    reveal_strlit("none");
    assert(lower(s)[0] == s[0]);
    assert("skip"@[0] == 's' && "none"@[0] == 'n');
}

/// A number picks the remote that stands at that place of the list, counted from one,
/// for either question; a number that none has picks no canonical remote.
pub proof fn numbers_pick_remotes(n: nat, remotes: Seq<(Seq<char>, Seq<char>)>, usable: bool)
    requires
        1 <= n <= usize::MAX,
    ensures
        n <= remotes.len() ==> canonical_answer(decimal(n), remotes, usable)
            == CanonicalAnswerView::Remote(remotes[n - 1].1),
        n > remotes.len() ==> canonical_answer(decimal(n), remotes, usable)
            == CanonicalAnswerView::Invalid,
        n <= remotes.len() ==> checkout_answer(decimal(n), remotes, usable) == Some(
            remotes[n - 1].1,
        ),
{
    lemma_numeral(n);
}

/// What is neither a number nor a word that skips the question is taken as a URL where
/// it is usable as one, without the white space around it.
pub proof fn urls_are_taken_as_given(
    answer: Seq<char>,
    remotes: Seq<(Seq<char>, Seq<char>)>,
    usable: bool,
)
    requires
        parsed_number(trim_text(answer), usize::MAX as nat) is None,
    ensures
        ({
            let text = trim_text(answer);
            let skipped = lower(text) == "skip"@ || lower(text) == "none"@;
            &&& skipped ==> canonical_answer(answer, remotes, usable)
                == CanonicalAnswerView::NoCanonicalRemote
            &&& !skipped && usable && text.len() > 0 ==> canonical_answer(answer, remotes, usable)
                == CanonicalAnswerView::Remote(text)
            &&& !skipped && !(usable && text.len() > 0) ==> canonical_answer(
                answer,
                remotes,
                usable,
            ) == CanonicalAnswerView::Invalid
            &&& usable && text.len() > 0 ==> checkout_answer(answer, remotes, usable) == Some(text)
            &&& !(usable && text.len() > 0) ==> checkout_answer(answer, remotes, usable) is None
        }),
{
}

/// Yes and no are answered by these words, in either case, and by no answer at all;
/// the relationship by its name, its first letter or its number.
pub proof fn short_answers_are_understood(answer: Seq<char>)
    ensures
        ({
            let word = lower(trim_text(answer));
            &&& yes_no(answer) == Some(true) <==> word == Seq::<char>::empty() || word == "y"@ || word
                == "yes"@
            &&& yes_no(answer) == Some(false) <==> word == "n"@ || word == "no"@
            &&& relationship_answer(answer) == Some(ManageRelationship::Fork) <==> word == "1"@
                || word == "f"@ || word == "fork"@
            &&& relationship_answer(answer) == Some(ManageRelationship::Mirror) <==> word == "2"@
                || word == "m"@ || word == "mirror"@
            &&& relationship_answer(answer) != Some(ManageRelationship::Canonical)
        }),
{
    reveal_strlit("y");
    reveal_strlit("yes");
    reveal_strlit("n");
    reveal_strlit("no");
    reveal_strlit("1");
    reveal_strlit("f");
    reveal_strlit("fork");
    reveal_strlit("2");
    reveal_strlit("m");
    reveal_strlit("mirror");
    let word = lower(trim_text(answer));
    assert("y"@[0] == 'y' && "yes"@[0] == 'y' && "n"@[0] == 'n' && "no"@[0] == 'n');
    assert("1"@[0] == '1' && "f"@[0] == 'f' && "fork"@[0] == 'f');
    assert("2"@[0] == '2' && "m"@[0] == 'm' && "mirror"@[0] == 'm');
    assert(word.len() == 0 ==> word =~= Seq::<char>::empty());
}

/// The checkout has this URL as its origin, which is the first remote of that name.
pub open spec fn has_origin(remotes: Seq<(Seq<char>, Seq<char>)>, url: Seq<char>) -> bool {
    exists|i: int|
        0 <= i < remotes.len() && (#[trigger] remotes[i]).0 == "origin"@ && remotes[i].1 == url
            && forall|j: int| 0 <= j < i ==> (#[trigger] remotes[j]).0 != "origin"@
}

proof fn lemma_origin(remotes: Seq<(Seq<char>, Seq<char>)>, i: int)
    requires
        0 <= i <= remotes.len(),
        forall|j: int| 0 <= j < i ==> (#[trigger] remotes[j]).0 != "origin"@,
    ensures
        origin_in(remotes, i) matches Some(url) ==> has_origin(remotes, url),
        origin_in(remotes, i) is None ==> forall|j: int|
            0 <= j < remotes.len() ==> (#[trigger] remotes[j]).0 != "origin"@,
    decreases remotes.len() - i,
{
    if i < remotes.len() && remotes[i].0 != "origin"@ {
        lemma_origin(remotes, i + 1);
    }
}

/// The first question is about the origin where there is one, about the canonical
/// remote where there are only others, and about the checkout where there are none. An
/// origin that is taken to be canonical is chosen at once.
pub proof fn the_first_question_fits_the_remotes(
    remotes: Seq<(Seq<char>, Seq<char>)>,
    origin_is_canonical: bool,
)
    ensures
        ({
            let first = first_stage(remotes, origin_is_canonical);
            let none = forall|j: int|
                0 <= j < remotes.len() ==> (#[trigger] remotes[j]).0 != "origin"@;
            &&& first is ConfirmOrigin ==> !none && !origin_is_canonical
            &&& !none && !origin_is_canonical ==> first is ConfirmOrigin
            &&& first is Checkout <==> remotes.len() == 0
            &&& first is Canonical <==> remotes.len() > 0 && none
            &&& !none && origin_is_canonical ==> first is Chosen && has_origin(
                remotes,
                first->Chosen_0.checkout_url,
            ) && first->Chosen_0.canonical_url == first->Chosen_0.checkout_url
                && first->Chosen_0.relationship == ManageRelationship::Canonical
        }),
{
    lemma_origin(remotes, 0);
    if origin_in(remotes, 0) is Some {
        let i = choose|i: int|
            0 <= i < remotes.len() && (#[trigger] remotes[i]).0 == "origin"@ && remotes[i].1
                == origin_in(remotes, 0)->0 && forall|j: int|
                0 <= j < i ==> (#[trigger] remotes[j]).0 != "origin"@;
        assert(remotes[i].0 == "origin"@);
    }
}

/// Each answer leads on by what it says: a canonical remote that is the origin makes
/// the checkout canonical, and another one leaves the origin as the checkout and asks
/// what it is; what it is is then chosen with these two URLs, and the canonical
/// repository is brought in. Where no remote is canonical, its URL is asked for last,
/// and it is not brought in.
pub proof fn answers_lead_to_the_choice(
    remotes: Seq<(Seq<char>, Seq<char>)>,
    checkout: Seq<char>,
    canonical: Seq<char>,
    relationship: ManageRelationship,
    answer: Seq<char>,
    usable: bool,
)
    ensures
        ({
            let origin = origin_in(remotes, 0);
            let confirmed = next_stage(remotes, ManageStageView::ConfirmOrigin, answer, usable);
            let named = next_stage(remotes, ManageStageView::Canonical, answer, usable);
            let said = next_stage(
                remotes,
                ManageStageView::Relationship { checkout_url: checkout, canonical_url: canonical },
                answer,
                usable,
            );
            let last = next_stage(
                remotes,
                ManageStageView::DeferredCanonical { checkout_url: checkout, relationship },
                answer,
                usable,
            );
            let deferred = next_stage(
                remotes,
                ManageStageView::DeferredRelationship { checkout_url: checkout },
                answer,
                usable,
            );
            &&& confirmed is Some <==> yes_no(answer) is Some
            &&& confirmed is Some && confirmed->0 is Chosen <==> yes_no(answer) == Some(true)
                && origin is Some
            &&& confirmed is Some && confirmed->0 is Chosen ==> confirmed->0->Chosen_0 == (
            ChoiceView {
                checkout_url: origin->0,
                canonical_url: origin->0,
                relationship: ManageRelationship::Canonical,
                materialize_canonical: false,
            })
            &&& canonical_answer(answer, remotes, usable) matches CanonicalAnswerView::Remote(url)
                ==> {
                &&& origin is Some && url != origin->0 ==> named == Some(
                    ManageStageView::Relationship { checkout_url: origin->0, canonical_url: url },
                )
                &&& origin is None || url == origin->0 ==> named == Some(
                    ManageStageView::Chosen(
                        ChoiceView {
                            checkout_url: url,
                            canonical_url: url,
                            relationship: ManageRelationship::Canonical,
                            materialize_canonical: false,
                        },
                    ),
                )
            }
            &&& canonical_answer(answer, remotes, usable) is NoCanonicalRemote ==> named == Some(
                if origin is Some {
                    ManageStageView::DeferredRelationship { checkout_url: origin->0 }
                } else {
                    ManageStageView::Checkout
                },
            )
            &&& said is Some <==> relationship_answer(answer) is Some
            &&& said is Some ==> said->0 == ManageStageView::Chosen(
                ChoiceView {
                    checkout_url: checkout,
                    canonical_url: canonical,
                    relationship: relationship_answer(answer)->0,
                    materialize_canonical: true,
                },
            )
            &&& deferred is Some <==> relationship_answer(answer) is Some
            &&& deferred is Some ==> deferred->0 == (ManageStageView::DeferredCanonical {
                checkout_url: checkout,
                relationship: relationship_answer(answer)->0,
            })
            &&& last is Some <==> trim_text(answer).len() > 0
            &&& last is Some ==> last->0 == ManageStageView::Chosen(
                ChoiceView {
                    checkout_url: checkout,
                    canonical_url: trim_text(answer),
                    relationship,
                    materialize_canonical: false,
                },
            )
        }),
{
}

} // verus!
