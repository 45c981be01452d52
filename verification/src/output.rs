//! What commands tell about what they did.
use crate::config::{ForgeBackend, RepoVisibility};
use crate::history::{RelatedListReport, RelatedSuggestionReport};
use crate::locator::{Locator, LocatorView};
use crate::moves::{AliasPlan, MovePlan};
use crate::repair::SharedGitDirResolution;
use crate::text::{decimal, decimal_text, integer, integer_text, opt_view, views};
use vstd::prelude::*;

verus! {

/// What precedes, what follows, and an arrow between them.
pub open spec fn arrow(prefix: Seq<char>, from: Seq<char>, to: Seq<char>) -> Seq<char> {
    prefix + from + " -> "@ + to + "\n"@
}

fn arrow_line(prefix: &str, from: &str, to: &str) -> (r: String)
    ensures
        r@ == arrow(prefix@, from@, to@),
{
    let mut text = prefix.to_owned();
    text.append(from);
    text.append(" -> ");
    text.append(to);
    text.append("\n");
    text
}

fn line(prefix: &str, rest: &str) -> (r: String)
    ensures
        r@ == prefix@ + rest@ + "\n"@,
{
    let mut text = prefix.to_owned();
    text.append(rest);
    text.append("\n");
    text
}

/// The note that comes with settings that were saved.
pub open spec fn setup_note() -> Seq<char> {
    "Environment variables and top-level CLI options override these persisted values at runtime."@
}

pub fn setup_text(config_path: &str) -> (r: String)
    ensures
        r@ == "saved config: "@ + config_path@ + "\n"@ + setup_note() + "\n"@,
{
    let mut text = line("saved config: ", config_path);
    text.append(
        "Environment variables and top-level CLI options override these persisted values at runtime.",
    );
    text.append("\n");
    text
}

pub fn daemon_ping_text(rpc_url: &str) -> (r: String)
    ensures
        r@ == "repod reachable: "@ + rpc_url@ + "\n"@,
{
    line("repod reachable: ", rpc_url)
}

pub fn clone_output(locator: &Locator, path: &str) -> (r: String)
    ensures
        r@ == arrow("cloned "@, locator@.key(), path@),
{
    arrow_line("cloned ", locator.key().as_str(), path)
}

pub open spec fn visibility_word(visibility: RepoVisibility) -> Seq<char> {
    match visibility {
        RepoVisibility::Private => "private"@,
        RepoVisibility::Public => "public"@,
    }
}

pub open spec fn backend_name(backend: ForgeBackend) -> Seq<char> {
    match backend {
        ForgeBackend::Github => "GitHub"@,
        ForgeBackend::Sourcehut => "SourceHut"@,
        ForgeBackend::Forgejo => "Forgejo"@,
    }
}

pub fn create_output(
    visibility: RepoVisibility,
    backend: ForgeBackend,
    locator: &Locator,
    path: &str,
) -> (r: String)
    ensures
        r@ == arrow(
            "created "@ + visibility_word(visibility) + " "@ + backend_name(backend)
                + " repository "@,
            locator@.key(),
            path@,
        ),
{
    let mut prefix = "created ".to_owned();
    prefix.append(
        match visibility {
            RepoVisibility::Private => "private",
            RepoVisibility::Public => "public",
        },
    );
    prefix.append(" ");
    prefix.append(
        match backend {
            ForgeBackend::Github => "GitHub",
            ForgeBackend::Sourcehut => "SourceHut",
            ForgeBackend::Forgejo => "Forgejo",
        },
    );
    prefix.append(" repository ");
    arrow_line(prefix.as_str(), locator.key().as_str(), path)
}

pub open spec fn manage_lines(
    locator: LocatorView,
    path: Seq<char>,
    moved_from: Option<Seq<char>>,
    review_requested: bool,
) -> Seq<char> {
    arrow("managed "@, locator.key(), path) + (match moved_from {
        Some(from) => "moved from: "@ + from + "\n"@,
        None => Seq::empty(),
    }) + (if review_requested {
        "shared-history review requested via daemon\n"@
    } else {
        "shared-history review not requested; daemon unavailable\n"@
    })
}

pub fn manage_output(
    locator: &Locator,
    path: &str,
    moved_from: &Option<String>,
    review_requested: bool,
) -> (r: String)
    ensures
        r@ == manage_lines(locator@, path@, opt_view(*moved_from), review_requested),
{
    let mut text = arrow_line("managed ", locator.key().as_str(), path);
    match moved_from {
        Some(from) => text.append(line("moved from: ", from.as_str()).as_str()),
        None => {
            proof {
                assert(text@ + Seq::<char>::empty() =~= text@);
            }
        },
    }
    if review_requested {
        text.append("shared-history review requested via daemon\n");
    } else {
        text.append("shared-history review not requested; daemon unavailable\n");
    }
    text
}

/// A fork that was made.
#[derive(Debug)]
pub struct ForkResult {
    pub fork_locator: Locator,
    pub parent_locator: Locator,
    pub parent_path: String,
    pub canonical_locator: Locator,
    pub fork_path: String,
    pub canonical_path: String,
    pub fork_remote: String,
    pub refs_prefix: Option<String>,
}

/// The parent is told where it is not where the Git directory is kept.
pub open spec fn fork_lines(result: ForkResult) -> Seq<char> {
    arrow("created fork worktree "@, result.fork_locator@.key(), result.fork_path@)
        + ("registered fork remote `"@ + result.fork_remote@ + "` on "@ + result.canonical_path@
        + "\n"@) + (if result.parent_locator@ == result.canonical_locator@ {
        Seq::empty()
    } else {
        ("parent: "@ + result.parent_locator@.key() + "\n"@) + ("canonical storage: "@
            + result.canonical_locator@.key() + "\n"@)
    })
}

pub fn fork_output(result: &ForkResult) -> (r: String)
    ensures
        r@ == fork_lines(*result),
{
    let mut text = arrow_line(
        "created fork worktree ",
        result.fork_locator.key().as_str(),
        result.fork_path.as_str(),
    );
    let mut remote = "registered fork remote `".to_owned();
    remote.append(result.fork_remote.as_str());
    remote.append("` on ");
    remote.append(result.canonical_path.as_str());
    remote.append("\n");
    text.append(remote.as_str());
    if result.parent_locator.same(&result.canonical_locator) {
        proof {
            assert(text@ + Seq::<char>::empty() =~= text@);
        }
    } else {
        let mut rest = line("parent: ", result.parent_locator.key().as_str());
        rest.append(
            line("canonical storage: ", result.canonical_locator.key().as_str()).as_str(),
        );
        text.append(rest.as_str());
    }
    text
}

pub fn worktree_output(locator: &Locator, path: &str) -> (r: String)
    ensures
        r@ == arrow("created worktree "@, locator@.key(), path@),
{
    arrow_line("created worktree ", locator.key().as_str(), path)
}

/// One line for each old place.
pub open spec fn alias_lines(prefix: Seq<char>, aliases: Seq<AliasPlan>) -> Seq<char>
    decreases aliases.len(),
{
    if aliases.len() == 0 {
        Seq::empty()
    } else {
        alias_lines(prefix, aliases.drop_last()) + arrow(
            prefix,
            aliases.last().alias_path@,
            aliases.last().target_path@,
        )
    }
}

fn list_aliases(prefix: &str, aliases: &Vec<AliasPlan>) -> (r: String)
    ensures
        r@ == alias_lines(prefix@, aliases@),
{
    let ghost all = aliases@;
    let mut text = String::new();
    proof {
        assert(text@ =~= alias_lines(prefix@, all.take(0)));
    }
    let mut i: usize = 0;
    while i < aliases.len()
        invariant
            i <= aliases@.len(),
            all == aliases@,
            text@ == alias_lines(prefix@, all.take(i as int)),
        decreases aliases@.len() - i,
    {
        proof {
            assert(all.take(i + 1).drop_last() =~= all.take(i as int));
            assert(all.take(i + 1).last() == all[i as int]);
        }
        text.append(
            arrow_line(
                prefix,
                aliases[i].alias_path.as_str(),
                aliases[i].target_path.as_str(),
            ).as_str(),
        );
        i += 1;
    }
    proof {
        assert(all.take(i as int) =~= all);
    }
    text
}

pub fn move_output(plan: &MovePlan) -> (r: String)
    ensures
        r@ == arrow("moved "@, plan.old_locator@.key(), plan.new_locator@.key())
            + ("current path: "@ + plan.new_path@ + "\n"@) + alias_lines(
            "alias: "@,
            plan.aliases@,
        ),
{
    let mut text = arrow_line(
        "moved ",
        plan.old_locator.key().as_str(),
        plan.new_locator.key().as_str(),
    );
    text.append(line("current path: ", plan.new_path.as_str()).as_str());
    text.append(list_aliases("alias: ", &plan.aliases).as_str());
    text
}

pub fn aliases_output(aliases: &Vec<AliasPlan>) -> (r: String)
    ensures
        r@ == if aliases@.len() == 0 {
            "no aliases\n"@
        } else {
            alias_lines(""@, aliases@)
        },
{
    if aliases.len() == 0 {
        return "no aliases\n".to_owned();
    }
    list_aliases("", aliases)
}

pub fn fetch_output(remote: &str, locator: &Locator, refs_prefix: &Option<String>) -> (r: String)
    ensures
        r@ == ("fetched "@ + remote@ + " for "@ + locator@.key() + "\n"@) + (match opt_view(
            *refs_prefix,
        ) {
            Some(prefix) => "refs: "@ + prefix + "\n"@,
            None => Seq::empty(),
        }),
{
    let mut text = "fetched ".to_owned();
    text.append(remote);
    text.append(" for ");
    text.append(locator.key().as_str());
    text.append("\n");
    match refs_prefix {
        Some(prefix) => text.append(line("refs: ", prefix.as_str()).as_str()),
        None => {
            proof {
                assert(text@ + Seq::<char>::empty() =~= text@);
            }
        },
    }
    text
}

/// One line for each text.
pub open spec fn text_lines(texts: Seq<Seq<char>>) -> Seq<char>
    decreases texts.len(),
{
    if texts.len() == 0 {
        Seq::empty()
    } else {
        text_lines(texts.drop_last()) + (texts.last() + "\n"@)
    }
}

pub fn branch_output(created: &Option<String>, branches: &Vec<String>) -> (r: String)
    ensures
        r@ == (match opt_view(*created) {
            Some(branch) => "created branch "@ + branch + "\n"@,
            None => Seq::empty(),
        }) + text_lines(views(branches@)),
{
    let mut text = match created {
        Some(branch) => line("created branch ", branch.as_str()),
        None => String::new(),
    };
    let ghost start = text@;
    let ghost all = views(branches@);
    proof {
        assert(start =~= start + text_lines(all.take(0)));
    }
    let mut i: usize = 0;
    while i < branches.len()
        invariant
            i <= branches@.len(),
            all == views(branches@),
            text@ == start + text_lines(all.take(i as int)),
        decreases branches@.len() - i,
    {
        proof {
            assert(all.take(i + 1).drop_last() =~= all.take(i as int));
            assert(all.take(i + 1).last() == branches@[i as int]@);
        }
        let mut row = branches[i].clone();
        row.append("\n");
        text.append(row.as_str());
        proof {
            assert(text@ =~= start + text_lines(all.take(i + 1)));
        }
        i += 1;
    }
    proof {
        assert(all.take(i as int) =~= all);
    }
    text
}

pub fn reconcile_output(moved: usize, skipped: usize) -> (r: String)
    ensures
        r@ == ("applied "@ + decimal(moved as nat) + " move(s)\n"@) + (if skipped > 0 {
            "skipped "@ + decimal(skipped as nat) + " repo(s)\n"@
        } else {
            Seq::empty()
        }),
{
    let mut text = "applied ".to_owned();
    text.append(decimal_text(moved as u128).as_str());
    text.append(" move(s)\n");
    if skipped > 0 {
        let mut rest = "skipped ".to_owned();
        rest.append(decimal_text(skipped as u128).as_str());
        rest.append(" repo(s)\n");
        text.append(rest.as_str());
    } else {
        proof {
            assert(text@ + Seq::<char>::empty() =~= text@);
        }
    }
    text
}

pub fn successor_output(old_ref: &str, new_locator: &Locator) -> (r: String)
    ensures
        r@ == arrow("recorded successor: "@, old_ref@, new_locator@.key()),
{
    arrow_line("recorded successor: ", old_ref, new_locator.key().as_str())
}

/// One suggestion, after an empty line.
pub open spec fn suggestion_lines(s: RelatedSuggestionReport) -> Seq<char> {
    "\n#"@ + integer(s.id as int) + "  "@ + s.repository.locator@.key() + "\n    "@
        + s.related.locator@.key() + "\n    evidence: "@ + s.evidence.summary@
        + "\n    resolve:  "@ + s.resolve_command@ + "\n"@
}

pub open spec fn all_suggestion_lines(list: Seq<RelatedSuggestionReport>) -> Seq<char>
    decreases list.len(),
{
    if list.len() == 0 {
        Seq::empty()
    } else {
        all_suggestion_lines(list.drop_last()) + suggestion_lines(list.last())
    }
}

/// Suggestions to review, or that there are none.
pub fn related_output(report: &RelatedListReport) -> (r: String)
    ensures
        r@ == if report.suggestions@.len() == 0 {
            "no unresolved shared-history suggestions\n"@
        } else {
            ("unresolved shared-history suggestions: "@ + decimal(report.unresolved_count as nat)
                + "\n"@) + all_suggestion_lines(report.suggestions@)
        },
{
    if report.suggestions.len() == 0 {
        return "no unresolved shared-history suggestions\n".to_owned();
    }
    let mut text = "unresolved shared-history suggestions: ".to_owned();
    text.append(decimal_text(report.unresolved_count as u128).as_str());
    text.append("\n");
    let ghost start = text@;
    let ghost all = report.suggestions@;
    proof {
        assert(start =~= start + all_suggestion_lines(all.take(0)));
    }
    let mut i: usize = 0;
    while i < report.suggestions.len()
        invariant
            i <= report.suggestions@.len(),
            all == report.suggestions@,
            text@ == start + all_suggestion_lines(all.take(i as int)),
        decreases report.suggestions@.len() - i,
    {
        let s = &report.suggestions[i];
        proof {
            assert(all.take(i + 1).drop_last() =~= all.take(i as int));
            assert(all.take(i + 1).last() == all[i as int]);
        }
        let mut row = "\n#".to_owned();
        row.append(integer_text(s.id).as_str());
        row.append("  ");
        row.append(s.repository.locator.key().as_str());
        row.append("\n    ");
        row.append(s.related.locator.key().as_str());
        row.append("\n    evidence: ");
        row.append(s.evidence.summary.as_str());
        row.append("\n    resolve:  ");
        row.append(s.resolve_command.as_str());
        row.append("\n");
        text.append(row.as_str());
        proof {
            assert(text@ =~= start + all_suggestion_lines(all.take(i + 1)));
        }
        i += 1;
    }
    proof {
        assert(all.take(i as int) =~= all);
    }
    text
}

/// How a Git directory came to be shared.
pub open spec fn share_lines(s: SharedGitDirResolution) -> Seq<char> {
    s.dependent_locator@.key() + " now reuses canonical Git directory "@
        + s.controlling_locator@.key() + "\nremote on canonical checkout: "@ + s.dependent_remote@
        + " -> "@ + s.dependent_url@ + "\ntracking branch: "@ + s.local_branch@ + " -> "@
        + s.remote_branch@ + "\n"@ + (if s.converted_to_worktree {
        "converted fork/mirror checkout to Git worktree: "@ + s.dependent_path@ + "\n"@
    } else {
        Seq::empty()
    })
}

fn share_output(s: &SharedGitDirResolution) -> (r: String)
    ensures
        r@ == share_lines(*s),
{
    let mut text = s.dependent_locator.key();
    text.append(" now reuses canonical Git directory ");
    text.append(s.controlling_locator.key().as_str());
    text.append("\nremote on canonical checkout: ");
    text.append(s.dependent_remote.as_str());
    text.append(" -> ");
    text.append(s.dependent_url.as_str());
    text.append("\ntracking branch: ");
    text.append(s.local_branch.as_str());
    text.append(" -> ");
    text.append(s.remote_branch.as_str());
    text.append("\n");
    if s.converted_to_worktree {
        text.append(
            line(
                "converted fork/mirror checkout to Git worktree: ",
                s.dependent_path.as_str(),
            ).as_str(),
        );
    } else {
        proof {
            assert(text@ + Seq::<char>::empty() =~= text@);
        }
    }
    text
}

pub fn related_resolution_output(
    id: i64,
    resolution: &str,
    shared: &Option<SharedGitDirResolution>,
) -> (r: String)
    ensures
        r@ == ("resolved shared-history suggestion #"@ + integer(id as int) + " as "@ + resolution@
            + "\n"@) + (match *shared {
            Some(shared) => share_lines(shared),
            None => Seq::empty(),
        }),
{
    let mut text = "resolved shared-history suggestion #".to_owned();
    text.append(integer_text(id).as_str());
    text.append(" as ");
    text.append(resolution);
    text.append("\n");
    match shared {
        Some(shared) => text.append(share_output(shared).as_str()),
        None => {
            proof {
                assert(text@ + Seq::<char>::empty() =~= text@);
            }
        },
    }
    text
}

/// What a change of type is told as: the types, the canonical repository, the
/// parent where that is another one, and the branch of a namespace that was made.
pub open spec fn type_change_lines(
    id: Seq<char>,
    previous: Seq<char>,
    new: Seq<char>,
    parent_id: Option<Seq<char>>,
    canonical_id: Option<Seq<char>>,
    branch: Option<Seq<char>>,
) -> Seq<char> {
    arrow(id + ": "@, previous, new) + (match canonical_id {
        Some(canonical) => (match parent_id {
            Some(parent) => if parent != canonical {
                "parent: "@ + parent + "\n"@
            } else {
                Seq::empty()
            },
            None => Seq::empty(),
        }) + ("canonical: "@ + canonical + "\n"@),
        None => Seq::empty(),
    }) + (match branch {
        Some(branch) => "materialized "@ + new + " namespace: "@ + branch + "\n"@,
        None => Seq::empty(),
    })
}

pub fn type_change_output(
    id: &str,
    previous: &str,
    new: &str,
    parent_id: &Option<String>,
    canonical_id: &Option<String>,
    branch: &Option<String>,
) -> (r: String)
    ensures
        r@ == type_change_lines(
            id@,
            previous@,
            new@,
            opt_view(*parent_id),
            opt_view(*canonical_id),
            opt_view(*branch),
        ),
{
    let mut prefix = id.to_owned();
    prefix.append(": ");
    let mut text = arrow_line(prefix.as_str(), previous, new);
    let middle = match canonical_id {
        Some(canonical) => {
            let mut middle = match parent_id {
                Some(parent) => if !parent.as_str().eq(canonical.as_str()) {
                    line("parent: ", parent.as_str())
                } else {
                    String::new()
                },
                None => String::new(),
            };
            middle.append(line("canonical: ", canonical.as_str()).as_str());
            middle
        },
        None => String::new(),
    };
    text.append(middle.as_str());
    let last = match branch {
        Some(branch) => {
            let mut last = "materialized ".to_owned();
            last.append(new);
            last.append(" namespace: ");
            last.append(branch.as_str());
            last.append("\n");
            last
        },
        None => String::new(),
    };
    text.append(last.as_str());
    text
}

} // verus!
