//! The repository publisher's verified core: deterministic derivation of
//! branch, file and commit names from a submission, the step-by-step
//! sequencing rules of a publish attempt (cleanup always runs, a failed merge
//! request after a successful push is reported as partial success), and a
//! model of the repository under publishes.

use vstd::prelude::*;
use crate::index::insert_entry_spec;
use crate::index::interior;
use crate::index::lemma_insert_entry_spec_lines;
use crate::index::lemma_insert_lines_props;
use crate::index::text_lines;
use crate::index::wf_index;

verus! {

/// The remote project that submissions target.
pub const OVERLAY_PROJECT_ID: u64 = 35606329;

/// A complete icon submission, ready to publish.
pub struct Submission {
    pub app_identifier: String,
    pub icon_name: String,
    pub description: String,
    pub vector_bytes: Vec<u8>,
}

/// The body of the remote merge-request creation call.
pub struct MergeRequestParams {
    pub id: u64,
    pub source_branch: String,
    pub target_branch: String,
    pub remove_source_branch: bool,
    pub title: String,
    pub description: String,
}

/// Everything the publisher derives from a submission before touching the
/// repository.
pub struct PublishPlan {
    pub branch_name: String,
    pub branch_refspec: String,
    pub drawable_file_name: String,
    pub commit_message: String,
    pub index_line: String,
    pub merge_request: MergeRequestParams,
}

/// The branch a submission is published on.
pub open spec fn branch_name_of(name: Seq<char>) -> Seq<char> {
    "bot/icon_"@ + name
}

/// The refspec pushed to the remote.
pub open spec fn branch_refspec_of(name: Seq<char>) -> Seq<char> {
    "refs/heads/bot/icon_"@ + name
}

/// The drawable file written for a submission.
pub open spec fn drawable_file_name_of(name: Seq<char>) -> Seq<char> {
    "themed_icon_"@ + name + ".xml"@
}

/// The commit and merge-request title.
pub open spec fn commit_message_of(name: Seq<char>) -> Seq<char> {
    "overlay: Add icon for "@ + name
}

/// The index entry line for a submission: four spaces of indent, the drawable
/// reference, then the package, in that attribute order.
pub open spec fn index_line_of(name: Seq<char>, pkg: Seq<char>) -> Seq<char> {
    "    <icon drawable=\"@drawable/themed_icon_"@ + name + "\" package=\""@ + pkg + "\" />"@
}

/// The stable branch that submissions target.
pub open spec fn integration_branch() -> Seq<char> {
    "12.1"@
}

/// A character allowed in an icon name, which must stay safe inside file
/// names, branch names and the index line.
pub open spec fn safe_name_char(c: char) -> bool {
    (97 <= c as int && c as int <= 122) || (65 <= c as int && c as int <= 90) || (48 <= c as int
        && c as int <= 57) || c == '_' || c == '-'
}

/// A usable icon name: nonempty and made of safe characters only.
pub open spec fn safe_name_seq(s: Seq<char>) -> bool {
    s.len() > 0 && forall|i: int| 0 <= i < s.len() ==> safe_name_char(#[trigger] s[i])
}

/// A package identifier that can be embedded in the index line: nonempty,
/// and free of newlines and quotes.
pub open spec fn package_ok(s: Seq<char>) -> bool {
    s.len() > 0 && !s.contains('\n') && !s.contains('"')
}

/// Decides whether an icon name is safe.
pub fn check_safe_name(s: &str) -> (r: bool)
    ensures
        r == safe_name_seq(s@),
{
    let len = s.unicode_len();
    if len == 0 {
        return false;
    }
    let mut i: usize = 0;
    while i < len
        invariant
            len == s@.len(),
            0 <= i <= len,
            forall|j: int| 0 <= j < i ==> safe_name_char(#[trigger] s@[j]),
        decreases len - i,
    {
        let c = s.get_char(i);
        let u = c as u32;
        let ok = (u >= 97 && u <= 122) || (u >= 65 && u <= 90) || (u >= 48 && u <= 57) || c == '_'
            || c == '-';
        if !ok {
            return false;
        }
        i = i + 1;
    }
    true
}

/// Decides whether a package identifier can be embedded in the index line.
pub fn check_package(s: &str) -> (r: bool)
    ensures
        r == package_ok(s@),
{
    let len = s.unicode_len();
    if len == 0 {
        return false;
    }
    let mut i: usize = 0;
    while i < len
        invariant
            len == s@.len(),
            0 <= i <= len,
            forall|j: int| 0 <= j < i ==> s@[j] != '\n' && s@[j] != '"',
        decreases len - i,
    {
        let c = s.get_char(i);
        if c == '\n' || c == '"' {
            return false;
        }
        i = i + 1;
    }
    true
}

/// Derives every name the publisher needs from a submission. Returns `None`
/// exactly when the icon name is not safe or the package identifier cannot be
/// embedded in the index line.
pub fn plan_publish(s: &Submission) -> (r: Option<PublishPlan>)
    ensures
        match r {
            Option::Some(p) => {
                &&& safe_name_seq(s.icon_name@)
                &&& package_ok(s.app_identifier@)
                &&& p.branch_name@ == branch_name_of(s.icon_name@)
                &&& p.branch_refspec@ == branch_refspec_of(s.icon_name@)
                &&& p.drawable_file_name@ == drawable_file_name_of(s.icon_name@)
                &&& p.commit_message@ == commit_message_of(s.icon_name@)
                &&& p.index_line@ == index_line_of(s.icon_name@, s.app_identifier@)
                &&& p.merge_request.id == OVERLAY_PROJECT_ID
                &&& p.merge_request.source_branch@ == branch_name_of(s.icon_name@)
                &&& p.merge_request.target_branch@ == integration_branch()
                &&& p.merge_request.remove_source_branch == true
                &&& p.merge_request.title@ == commit_message_of(s.icon_name@)
                &&& p.merge_request.description@ == s.description@
            },
            Option::None => !(safe_name_seq(s.icon_name@) && package_ok(s.app_identifier@)),
        },
{
    if !check_safe_name(s.icon_name.as_str()) {
        return None;
    }
    if !check_package(s.app_identifier.as_str()) {
        return None;
    }
    let mut branch_name = String::from_str("bot/icon_");
    branch_name.append(s.icon_name.as_str());
    let mut branch_refspec = String::from_str("refs/heads/bot/icon_");
    branch_refspec.append(s.icon_name.as_str());
    let mut drawable_file_name = String::from_str("themed_icon_");
    drawable_file_name.append(s.icon_name.as_str());
    drawable_file_name.append(".xml");
    let mut commit_message = String::from_str("overlay: Add icon for ");
    commit_message.append(s.icon_name.as_str());
    let mut index_line = String::from_str("    <icon drawable=\"@drawable/themed_icon_");
    index_line.append(s.icon_name.as_str());
    index_line.append("\" package=\"");
    index_line.append(s.app_identifier.as_str());
    index_line.append("\" />");
    let merge_request = MergeRequestParams {
        id: OVERLAY_PROJECT_ID,
        source_branch: branch_name.clone(),
        target_branch: String::from_str("12.1"),
        remove_source_branch: true,
        title: commit_message.clone(),
        description: s.description.clone(),
    };
    Some(
        PublishPlan {
            branch_name,
            branch_refspec,
            drawable_file_name,
            commit_message,
            index_line,
            merge_request,
        },
    )
}

/// One step of a publish attempt, in execution order.
#[derive(PartialEq, Eq, Structural, Clone, Copy, Debug)]
pub enum PublishStep {
    /// Resolve the base working tree.
    ResolveTree,
    /// Create the submission branch at the tip of the integration branch.
    CreateBranch,
    /// Switch the working tree to the submission branch.
    SwitchToBranch,
    /// Write the vector drawable file.
    WriteDrawable,
    /// Read, mutate and write back the index file.
    UpdateIndex,
    /// Stage everything and commit.
    Commit,
    /// Push the submission branch to the remote.
    Push,
    /// Switch the working tree back to the integration branch.
    RestoreBranch,
    /// Ask the remote to merge the submission branch.
    RequestMerge,
}

/// How a publish attempt ended.
#[derive(PartialEq, Eq, Structural, Clone, Copy, Debug)]
pub enum PublishOutcome {
    /// Every step succeeded.
    Published,
    /// The push succeeded but the merge request failed: the remote branch
    /// exists and an operator must finish the request by hand.
    PartialPublish,
    /// The named step failed before anything irreversible happened.
    Failed { step: PublishStep },
}

/// Where a publish attempt stands: either a step remains to be run, or the
/// attempt is over.
#[derive(PartialEq, Eq, Structural, Clone, Copy, Debug)]
pub enum PublishPhase {
    /// `step` is to be run next; `failed_step` is set when the attempt has
    /// already failed and only the cleanup step remains.
    Running { step: PublishStep, failed_step: Option<PublishStep> },
    Finished { outcome: PublishOutcome },
}

/// The first step of a publish attempt.
pub fn publish_start() -> (r: PublishPhase)
    ensures
        r == (PublishPhase::Running {
            step: PublishStep::ResolveTree,
            failed_step: None::<PublishStep>,
        }),
{
    PublishPhase::Running { step: PublishStep::ResolveTree, failed_step: None }
}

/// The step after `step` when everything has succeeded so far.
pub open spec fn next_step(step: PublishStep) -> PublishStep {
    match step {
        PublishStep::ResolveTree => PublishStep::CreateBranch,
        PublishStep::CreateBranch => PublishStep::SwitchToBranch,
        PublishStep::SwitchToBranch => PublishStep::WriteDrawable,
        PublishStep::WriteDrawable => PublishStep::UpdateIndex,
        PublishStep::UpdateIndex => PublishStep::Commit,
        PublishStep::Commit => PublishStep::Push,
        PublishStep::Push => PublishStep::RestoreBranch,
        PublishStep::RestoreBranch => PublishStep::RequestMerge,
        PublishStep::RequestMerge => PublishStep::RequestMerge,
    }
}

/// Advances a publish attempt by the result of the step just run. A failure
/// before the cleanup step routes through `RestoreBranch` — the shared tree
/// is always switched back — and is then reported with the step that failed;
/// a failure of the merge request after a successful push is reported as
/// `PartialPublish`, never as plain success or total failure.
pub fn publish_advance(phase: PublishPhase, success: bool) -> (r: PublishPhase)
    requires
        phase is Running,
    ensures
        phase matches PublishPhase::Running { step, failed_step: Some(f) } ==> r == (
        PublishPhase::Finished { outcome: PublishOutcome::Failed { step: f } }),
        phase matches PublishPhase::Running { step, failed_step: None::<PublishStep> } ==> {
            if success {
                if step is RequestMerge {
                    r == (PublishPhase::Finished { outcome: PublishOutcome::Published })
                } else {
                    r == (PublishPhase::Running {
                        step: next_step(step),
                        failed_step: None::<PublishStep>,
                    })
                }
            } else {
                if step is RequestMerge {
                    r == (PublishPhase::Finished { outcome: PublishOutcome::PartialPublish })
                } else if step is RestoreBranch {
                    r == (PublishPhase::Finished {
                        outcome: PublishOutcome::Failed { step: PublishStep::RestoreBranch },
                    })
                } else {
                    r == (PublishPhase::Running {
                        step: PublishStep::RestoreBranch,
                        failed_step: Some(step),
                    })
                }
            }
        },
{
    match phase {
        PublishPhase::Running { step, failed_step } => {
            match failed_step {
                Some(f) => PublishPhase::Finished { outcome: PublishOutcome::Failed { step: f } },
                None => {
                    if success {
                        match step {
                            PublishStep::RequestMerge => PublishPhase::Finished {
                                outcome: PublishOutcome::Published,
                            },
                            _ => PublishPhase::Running {
                                step: match step {
                                    PublishStep::ResolveTree => PublishStep::CreateBranch,
                                    PublishStep::CreateBranch => PublishStep::SwitchToBranch,
                                    PublishStep::SwitchToBranch => PublishStep::WriteDrawable,
                                    PublishStep::WriteDrawable => PublishStep::UpdateIndex,
                                    PublishStep::UpdateIndex => PublishStep::Commit,
                                    PublishStep::Commit => PublishStep::Push,
                                    PublishStep::Push => PublishStep::RestoreBranch,
                                    PublishStep::RestoreBranch => PublishStep::RequestMerge,
                                    PublishStep::RequestMerge => PublishStep::RequestMerge,
                                },
                                failed_step: None,
                            },
                        }
                    } else {
                        match step {
                            PublishStep::RequestMerge => PublishPhase::Finished {
                                outcome: PublishOutcome::PartialPublish,
                            },
                            PublishStep::RestoreBranch => PublishPhase::Finished {
                                outcome: PublishOutcome::Failed {
                                    step: PublishStep::RestoreBranch,
                                },
                            },
                            _ => PublishPhase::Running {
                                step: PublishStep::RestoreBranch,
                                failed_step: Some(step),
                            },
                        }
                    }
                },
            }
        },
        PublishPhase::Finished { outcome } => PublishPhase::Finished { outcome },
    }
}

/// The repository as the publisher sees it: its branches, its drawable files
/// and the index text.
pub ghost struct RepoModel {
    pub branches: Set<Seq<char>>,
    pub drawables: Map<Seq<char>, Seq<u8>>,
    pub index_text: Seq<char>,
}

/// The repository after one whole publish: the submission branch exists, the
/// drawable file holds the vector bytes, and the index gained the entry line.
pub open spec fn apply_publish(r: RepoModel, name: Seq<char>, pkg: Seq<char>, vd: Seq<u8>)
    -> RepoModel {
    RepoModel {
        branches: r.branches.insert(branch_name_of(name)),
        drawables: r.drawables.insert(drawable_file_name_of(name), vd),
        index_text: insert_entry_spec(r.index_text, index_line_of(name, pkg)),
    }
}

/// An entry line built from a safe name and an embeddable package never
/// contains a newline, so it always fits on one index line.
pub proof fn lemma_index_line_newline_free(name: Seq<char>, pkg: Seq<char>)
    requires
        safe_name_seq(name),
        package_ok(pkg),
    ensures
        !index_line_of(name, pkg).contains('\n'),
{
    let a = "    <icon drawable=\"@drawable/themed_icon_"@;
    let b = "\" package=\""@;
    let c = "\" />"@;
    let line = index_line_of(name, pkg);
    assert(line == a + name + b + pkg + c);
    assert forall|i: int| 0 <= i < line.len() implies line[i] != '\n' by {
        reveal_strlit("    <icon drawable=\"@drawable/themed_icon_");
        reveal_strlit("\" package=\"");
        reveal_strlit("\" />");
        if i < a.len() {
            assert((a + name + b + pkg + c)[i] == a[i]);
        } else if i < a.len() + name.len() {
            assert((a + name + b + pkg + c)[i] == name[i - a.len()]);
            assert(safe_name_char(name[i - a.len()]));
        } else if i < a.len() + name.len() + b.len() {
            assert((a + name + b + pkg + c)[i] == b[i - a.len() - name.len()]);
        } else if i < a.len() + name.len() + b.len() + pkg.len() {
            assert((a + name + b + pkg + c)[i] == pkg[i - a.len() - name.len() - b.len()]);
            assert(!pkg.contains('\n'));
        } else {
            assert((a + name + b + pkg + c)[i] == c[i - a.len() - name.len() - b.len()
                - pkg.len()]);
        }
    }
    if line.contains('\n') {
        let w = choose|w: int| 0 <= w < line.len() && line[w] == '\n';
        assert(false);
    }
}

/// Drawable file names are distinct for distinct icon names.
pub proof fn lemma_drawable_names_injective(n1: Seq<char>, n2: Seq<char>)
    requires
        n1 != n2,
    ensures
        drawable_file_name_of(n1) != drawable_file_name_of(n2),
{
    let p = "themed_icon_"@;
    let s = ".xml"@;
    if drawable_file_name_of(n1) == drawable_file_name_of(n2) {
        assert((p + n1 + s).len() == (p + n2 + s).len());
        assert(n1.len() == n2.len());
        assert forall|i: int| 0 <= i < n1.len() implies n1[i] == n2[i] by {
            assert((p + n1 + s)[p.len() + i] == n1[i]);
            assert((p + n2 + s)[p.len() + i] == n2[i]);
        }
        assert(n1 =~= n2);
    }
}

/// Publishing two submissions one after the other — the serialization the
/// shared working tree demands — leaves both branches, both drawable files
/// and both index entries present in the final repository state.
pub proof fn lemma_publishes_compose(
    r: RepoModel,
    n1: Seq<char>,
    p1: Seq<char>,
    v1: Seq<u8>,
    n2: Seq<char>,
    p2: Seq<char>,
    v2: Seq<u8>,
)
    requires
        wf_index(r.index_text),
        safe_name_seq(n1),
        package_ok(p1),
        safe_name_seq(n2),
        package_ok(p2),
        n1 != n2,
    ensures
        ({
            let r2 = apply_publish(apply_publish(r, n1, p1, v1), n2, p2, v2);
            &&& r2.branches.contains(branch_name_of(n1))
            &&& r2.branches.contains(branch_name_of(n2))
            &&& r2.drawables.contains_key(drawable_file_name_of(n1))
            &&& r2.drawables[drawable_file_name_of(n1)] == v1
            &&& r2.drawables.contains_key(drawable_file_name_of(n2))
            &&& r2.drawables[drawable_file_name_of(n2)] == v2
            &&& interior(text_lines(r2.index_text)).to_multiset().contains(index_line_of(n1, p1))
            &&& interior(text_lines(r2.index_text)).to_multiset().contains(index_line_of(n2, p2))
        }),
{
    let l1 = index_line_of(n1, p1);
    let l2 = index_line_of(n2, p2);
    lemma_index_line_newline_free(n1, p1);
    lemma_index_line_newline_free(n2, p2);
    lemma_drawable_names_injective(n1, n2);
    let t0 = r.index_text;
    let t1 = insert_entry_spec(t0, l1);
    let t2 = insert_entry_spec(t1, l2);
    lemma_insert_entry_spec_lines(t0, l1);
    lemma_insert_lines_props(text_lines(t0), l1);
    lemma_insert_entry_spec_lines(t1, l2);
    lemma_insert_lines_props(text_lines(t1), l2);
    let m0 = interior(text_lines(t0)).to_multiset();
    let m1 = interior(text_lines(t1)).to_multiset();
    let m2 = interior(text_lines(t2)).to_multiset();
    assert(m1 == m0.insert(l1));
    assert(m2 == m1.insert(l2));
    assert(m2.contains(l1));
    assert(m2.contains(l2));
}

} // verus!
