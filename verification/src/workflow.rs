//! The consent-gated destructive workflow: the consent prompt's decision
//! rules, the classification of the external destroy tool's error channel,
//! the fail-fast sequencing of destroys, and the wipe variant's
//! preconditions. The blocking prompt loop and the external process calls
//! live with the caller; every decision is taken here.

use vstd::prelude::*;

use crate::data::{pd_views, PathData};
use crate::errors::{HttmError, HttmErrorKind};
use crate::mounts::{FilesystemType, MapOfDatasets};
use crate::strutil::{contains_seq, str_contains, views_of};

verus! {

/// What one line of consent input means.
#[derive(Clone, Copy, Debug, PartialEq, Eq, Structural)]
pub enum ConsentDecision {
    /// A case-insensitive yes: go ahead.
    Proceed,
    /// A case-insensitive no: decline, successfully.
    Decline,
    /// Anything else: ask again, with no side effects.
    Reprompt,
}

/// Is `s` the word yes or its initial, in any letter case?
pub open spec fn is_affirmative(s: Seq<char>) -> bool {
    ||| (s.len() == 1 && (s.index(0) == 'Y' || s.index(0) == 'y'))
    ||| (s.len() == 3 && (s.index(0) == 'Y' || s.index(0) == 'y') && (s.index(1) == 'E'
        || s.index(1) == 'e') && (s.index(2) == 'S' || s.index(2) == 's'))
}

/// Is `s` the word no or its initial, in any letter case?
pub open spec fn is_negative(s: Seq<char>) -> bool {
    ||| (s.len() == 1 && (s.index(0) == 'N' || s.index(0) == 'n'))
    ||| (s.len() == 2 && (s.index(0) == 'N' || s.index(0) == 'n') && (s.index(1) == 'O'
        || s.index(1) == 'o'))
}

/// The decision one consent input denotes.
pub open spec fn spec_consent(s: Seq<char>) -> ConsentDecision {
    if is_affirmative(s) {
        ConsentDecision::Proceed
    } else if is_negative(s) {
        ConsentDecision::Decline
    } else {
        ConsentDecision::Reprompt
    }
}

/// Classify one line of consent input: only a case-insensitive yes or no
/// is terminal; everything else re-prompts.
pub fn parse_consent(input: &str) -> (r: ConsentDecision)
    ensures
        r == spec_consent(input@),
{
    let len = input.unicode_len();
    if len == 1 {
        let c = input.get_char(0);
        if c == 'Y' || c == 'y' {
            ConsentDecision::Proceed
        } else if c == 'N' || c == 'n' {
            ConsentDecision::Decline
        } else {
            ConsentDecision::Reprompt
        }
    } else if len == 2 {
        let c0 = input.get_char(0);
        let c1 = input.get_char(1);
        if (c0 == 'N' || c0 == 'n') && (c1 == 'O' || c1 == 'o') {
            ConsentDecision::Decline
        } else {
            ConsentDecision::Reprompt
        }
    } else if len == 3 {
        let c0 = input.get_char(0);
        let c1 = input.get_char(1);
        let c2 = input.get_char(2);
        if (c0 == 'Y' || c0 == 'y') && (c1 == 'E' || c1 == 'e') && (c2 == 'S' || c2 == 's') {
            ConsentDecision::Proceed
        } else {
            ConsentDecision::Reprompt
        }
    } else {
        ConsentDecision::Reprompt
    }
}

/// What a finite sequence of consent inputs decides: the first terminal
/// answer wins; earlier non-terminal inputs re-prompt without side
/// effects; `None` when no input was terminal.
pub open spec fn spec_consent_outcome(inputs: Seq<Seq<char>>) -> Option<bool>
    decreases inputs.len(),
{
    if inputs.len() == 0 {
        None
    } else {
        match spec_consent(inputs.index(0)) {
            ConsentDecision::Proceed => Some(true),
            ConsentDecision::Decline => Some(false),
            ConsentDecision::Reprompt => spec_consent_outcome(inputs.drop_first()),
        }
    }
}

/// Run the consent decision over a finite list of inputs.
pub fn consent_outcome(inputs: &Vec<String>) -> (r: Option<bool>)
    ensures
        r == spec_consent_outcome(views_of(inputs@)),
{
    let ghost iv = views_of(inputs@);
    let len = inputs.len();
    proof {
        assert(iv.subrange(0, len as int) =~= iv);
    }
    let mut i: usize = 0;
    while i < len
        invariant
            0 <= i <= len,
            len == inputs@.len(),
            iv == views_of(inputs@),
            spec_consent_outcome(iv) == spec_consent_outcome(
                iv.subrange(i as int, len as int),
            ),
        decreases len - i,
    {
        let ghost rest = iv.subrange(i as int, len as int);
        proof {
            assert(rest.index(0) == inputs@.index(i as int)@);
            assert(rest.drop_first() =~= iv.subrange(i + 1, len as int));
        }
        match parse_consent(inputs[i].as_str()) {
            ConsentDecision::Proceed => {
                return Some(true);
            },
            ConsentDecision::Decline => {
                return Some(false);
            },
            ConsentDecision::Reprompt => {},
        }
        i += 1;
    }
    proof {
        assert(iv.subrange(len as int, len as int) =~= Seq::<Seq<char>>::empty());
    }
    None
}

/// The marker the external tool writes when privilege is missing.
pub open spec fn permission_marker() -> Seq<char> {
    "cannot destroy snapshots: permission denied"@
}

/// Classify the external destroy tool's error channel: empty means the
/// destroy succeeded; the permission marker means privilege is missing;
/// any other text is a generic failure carried verbatim.
pub fn classify_destroy_stderr(stderr: &str) -> (r: Result<(), HttmError>)
    ensures
        match r {
            Ok(()) => stderr@.len() == 0,
            Err(e) => {
                &&& stderr@.len() > 0
                &&& if contains_seq(stderr@, permission_marker()) {
                    e.kind == HttmErrorKind::DestroyPermissionDenied
                } else {
                    e.kind == HttmErrorKind::DestroyFailure && ends_with_verbatim(
                        e.details@,
                        stderr@,
                    )
                }
            },
        },
{
    if stderr.is_empty() {
        Ok(())
    } else if str_contains(stderr, "cannot destroy snapshots: permission denied") {
        Err(
            HttmError::new(
                HttmErrorKind::DestroyPermissionDenied,
                "Root privileges are required to destroy a snapshot filesystem.".to_owned(),
            ),
        )
    } else {
        let mut msg =
            "Unable to destroy snapshots. The destroy command issued the following error: ".to_owned();
        msg.append(stderr);
        proof {
            assert(msg@.subrange(msg@.len() - stderr@.len(), msg@.len() as int) =~= stderr@);
        }
        Err(HttmError::new(HttmErrorKind::DestroyFailure, msg))
    }
}

/// The tool's message stands verbatim at the end of the carried text.
pub open spec fn ends_with_verbatim(details: Seq<char>, stderr: Seq<char>) -> bool {
    crate::strutil::ends_with_seq(details, stderr)
}

/// The index of the first non-empty error channel, if any.
pub open spec fn first_failure(errs: Seq<Seq<char>>) -> Option<int>
    decreases errs.len(),
{
    if errs.len() == 0 {
        None
    } else if errs.index(0).len() > 0 {
        Some(0)
    } else {
        match first_failure(errs.drop_first()) {
            None => None,
            Some(k) => Some(k + 1),
        }
    }
}

/// The identifiers the sequential destroy phase invokes, given the error
/// channel of each call it makes: one call per planned identifier in list
/// order, aborting after the first call whose error channel is non-empty.
pub open spec fn spec_destroyed(ids: Seq<Seq<char>>, errs: Seq<Seq<char>>) -> Seq<Seq<char>>
    decreases ids.len(),
{
    if ids.len() == 0 {
        Seq::empty()
    } else if errs.len() > 0 && errs.index(0).len() > 0 {
        seq![ids.index(0)]
    } else {
        seq![ids.index(0)] + spec_destroyed(ids.drop_first(), errs.drop_first())
    }
}

/// A found first failure lies inside the list, fails, and nothing before
/// it does.
pub proof fn lemma_first_failure_bounds(errs: Seq<Seq<char>>)
    ensures
        match first_failure(errs) {
            Some(k) => 0 <= k < errs.len() && errs.index(k).len() > 0 && forall|j: int|
                0 <= j < k ==> (#[trigger] errs.index(j)).len() == 0,
            None => forall|j: int| 0 <= j < errs.len() ==> (#[trigger] errs.index(j)).len() == 0,
        },
    decreases errs.len(),
{
    if errs.len() > 0 && errs.index(0).len() == 0 {
        lemma_first_failure_bounds(errs.drop_first());
        assert(forall|j: int|
            0 <= j < errs.drop_first().len() ==> errs.drop_first().index(j) == errs.index(j + 1));
        match first_failure(errs.drop_first()) {
            Some(k) => {
                assert(first_failure(errs) == Some(k + 1));
                assert(errs.index(k + 1).len() > 0);
                assert forall|j: int| 0 <= j < k + 1 implies (#[trigger] errs.index(j)).len()
                    == 0 by {
                    if j >= 1 {
                        assert(errs.drop_first().index(j - 1).len() == 0);
                    }
                }
            },
            None => {
                assert forall|j: int| 0 <= j < errs.len() implies (#[trigger] errs.index(j)).len()
                    == 0 by {
                    if j >= 1 {
                        assert(errs.drop_first().index(j - 1).len() == 0);
                    }
                }
            },
        }
    }
}

/// The destroy phase is fail-fast and in order: with an affirmative
/// consent, every planned identifier up to and including the first failed
/// call is destroyed exactly once, in list order, and nothing after it.
pub proof fn lemma_destroy_fail_fast(ids: Seq<Seq<char>>, errs: Seq<Seq<char>>)
    requires
        errs.len() == ids.len(),
    ensures
        spec_destroyed(ids, errs) == match first_failure(errs) {
            None => ids,
            Some(k) => ids.take(k + 1),
        },
    decreases ids.len(),
{
    if ids.len() == 0 {
        assert(spec_destroyed(ids, errs) =~~= ids);
    } else if errs.index(0).len() > 0 {
        assert(spec_destroyed(ids, errs) =~~= ids.take(1));
    } else {
        lemma_destroy_fail_fast(ids.drop_first(), errs.drop_first());
        lemma_first_failure_bounds(errs.drop_first());
        match first_failure(errs.drop_first()) {
            None => {
                assert(first_failure(errs) is None);
                assert(spec_destroyed(ids, errs) =~~= ids);
            },
            Some(k) => {
                assert(first_failure(errs) == Some(k + 1));
                assert(ids.drop_first().take(k + 1) =~= ids.take(k + 2).drop_first());
                assert(spec_destroyed(ids, errs) =~~= ids.take(k + 2));
            },
        }
    }
}

/// Is `n` one of the chosen lines?
pub open spec fn chosen_contains(chosen: Seq<Seq<char>>, n: Seq<char>) -> bool {
    exists|j: int| 0 <= j < chosen.len() && #[trigger] chosen.index(j) == n
}

/// The planned identifiers an interactive down-selection kept: those
/// equal to one of the chosen lines, in plan order. The selector itself
/// is an outside collaborator; only its chosen lines come back here.
pub open spec fn spec_narrow_plan(plan: Seq<Seq<char>>, chosen: Seq<Seq<char>>) -> Seq<Seq<char>>
    decreases plan.len(),
{
    if plan.len() == 0 {
        Seq::empty()
    } else {
        let rest = spec_narrow_plan(plan.drop_last(), chosen);
        if chosen_contains(chosen, plan.last()) {
            rest.push(plan.last())
        } else {
            rest
        }
    }
}

fn is_chosen(n: &str, chosen: &Vec<String>) -> (r: bool)
    ensures
        r == chosen_contains(views_of(chosen@), n@),
{
    let ghost cv = views_of(chosen@);
    let len = chosen.len();
    let mut j: usize = 0;
    while j < len
        invariant
            0 <= j <= len,
            len == chosen@.len(),
            cv == views_of(chosen@),
            forall|jj: int| 0 <= jj < j ==> #[trigger] cv.index(jj) != n@,
        decreases len - j,
    {
        if crate::strutil::str_eq(chosen[j].as_str(), n) {
            proof {
                assert(cv.index(j as int) == n@);
            }
            return true;
        }
        j += 1;
    }
    false
}

/// Narrow the destroy plan to the identifiers the user selected: exactly
/// the planned identifiers that equal a chosen line, in plan order — a
/// select-mode purge never destroys beyond the selection.
pub fn narrow_plan(plan: &Vec<String>, chosen: &Vec<String>) -> (r: Vec<String>)
    ensures
        views_of(r@) == spec_narrow_plan(views_of(plan@), views_of(chosen@)),
{
    let ghost pv = views_of(plan@);
    let mut out: Vec<String> = Vec::new();
    let len = plan.len();
    let mut i: usize = 0;
    proof {
        assert(pv.take(0) =~= Seq::<Seq<char>>::empty());
    }
    while i < len
        invariant
            0 <= i <= len,
            len == plan@.len(),
            pv == views_of(plan@),
            views_of(out@) == spec_narrow_plan(pv.take(i as int), views_of(chosen@)),
        decreases len - i,
    {
        proof {
            assert(pv.take(i + 1).drop_last() =~= pv.take(i as int));
            assert(pv.take(i + 1).last() == plan@.index(i as int)@);
        }
        if is_chosen(plan[i].as_str(), chosen) {
            let item = plan[i].clone();
            out.push(item);
            proof {
                assert(views_of(out@) =~~= spec_narrow_plan(pv.take(i + 1), views_of(chosen@)));
            }
        } else {
            proof {
                assert(views_of(out@) =~~= spec_narrow_plan(pv.take(i + 1), views_of(chosen@)));
            }
        }
        i += 1;
    }
    proof {
        assert(pv.take(len as int) =~= pv);
    }
    out
}

/// The wipe variant's preconditions, checked before any plan is built:
/// every requested path must be currently non-existent, and every resolved
/// mount must be indexed as the ZFS kind (an unindexed mount passes).
/// Violation fails the whole operation before anything is destroyed.
pub fn wipe_preconditions(
    paths: &Vec<PathData>,
    mounts: &Vec<String>,
    map_of_datasets: &MapOfDatasets,
) -> (r: Result<(), HttmError>)
    ensures
        match r {
            Ok(()) => {
                &&& forall|j: int|
                    0 <= j < paths@.len() ==> (#[trigger] pd_views(paths@).index(j)).is_phantom()
                &&& forall|j: int|
                    0 <= j < mounts@.len() ==> match map_of_datasets.spec_get(
                        (#[trigger] mounts@.index(j))@,
                    ) {
                        Some(md) => md.fs_type == FilesystemType::Zfs,
                        None => true,
                    }
            },
            Err(e) => {
                &&& e.kind == HttmErrorKind::WipePrecondition
                &&& ((exists|j: int|
                    0 <= j < paths@.len() && !(#[trigger] pd_views(paths@).index(
                        j,
                    )).is_phantom()) || (exists|j: int|
                    0 <= j < mounts@.len() && match map_of_datasets.spec_get(
                        (#[trigger] mounts@.index(j))@,
                    ) {
                        Some(md) => md.fs_type != FilesystemType::Zfs,
                        None => false,
                    }))
            },
        },
{
    let n = paths.len();
    let mut i: usize = 0;
    while i < n
        invariant
            0 <= i <= n,
            n == paths@.len(),
            forall|j: int| 0 <= j < i ==> (#[trigger] pd_views(paths@).index(j)).is_phantom(),
        decreases n - i,
    {
        if !paths[i].is_phantom() {
            proof {
                assert(pd_views(paths@).index(i as int) == paths@.index(i as int)@);
            }
            return Err(
                HttmError::new(
                    HttmErrorKind::WipePrecondition,
                    "Wiping non-deleted files is not supported. Some of the requested paths are live files. Quitting.".to_owned(),
                ),
            );
        }
        proof {
            assert(pd_views(paths@).index(i as int) == paths@.index(i as int)@);
        }
        i += 1;
    }
    let m = mounts.len();
    let mut k: usize = 0;
    while k < m
        invariant
            0 <= k <= m,
            m == mounts@.len(),
            forall|j: int|
                0 <= j < k ==> match map_of_datasets.spec_get((#[trigger] mounts@.index(j))@) {
                    Some(md) => md.fs_type == FilesystemType::Zfs,
                    None => true,
                },
        decreases m - k,
    {
        match map_of_datasets.get(mounts[k].as_str()) {
            Some(md) => {
                if !matches!(md.fs_type, FilesystemType::Zfs) {
                    return Err(
                        HttmError::new(
                            HttmErrorKind::WipePrecondition,
                            "Wiping non-ZFS datasets is not supported at this time. Quitting.".to_owned(),
                        ),
                    );
                }
            },
            None => {},
        }
        k += 1;
    }
    Ok(())
}

} // verus!
