//! How the installs of a run went.

use vstd::prelude::*;
use crate::text::{copy_texts, decimal, join, joined, number, Text};
use crate::views::views;

verus! {

/// How a run of `cargo` ended.
#[derive(Clone, Copy, Debug, PartialEq, Eq)]
pub struct Outcome {
    pub success: bool,
    /// The exit code, if the process was not ended by a signal.
    pub code: Option<i32>,
}

/// The exit code of a failed run: that of the process, or minus one.
pub open spec fn failure(outcome: Outcome) -> Option<i32> {
    if outcome.success {
        None
    } else {
        match outcome.code {
            Some(code) => Some(code),
            None => Some(-1i32),
        }
    }
}

/// The names of the packages that were updated, of those that were not, and the exit code of
/// the first failure.
#[derive(Debug, PartialEq, Eq)]
pub struct Tally {
    pub updated: Vec<String>,
    pub failed: Vec<String>,
    pub code: Option<i32>,
}

/// What a [`Tally`] holds.
#[verifier::ext_equal]
pub struct TallyView {
    pub updated: Seq<Text>,
    pub failed: Seq<Text>,
    pub code: Option<i32>,
}

impl View for Tally {
    type V = TallyView;

    open spec fn view(&self) -> TallyView {
        TallyView {
            updated: views(self.updated@),
            failed: views(self.failed@),
            code: self.code,
        }
    }
}

impl TallyView {
    /// Nothing was tried yet.
    pub open spec fn empty() -> TallyView {
        TallyView { updated: Seq::empty(), failed: Seq::empty(), code: None }
    }

    /// There is an exit code exactly where something failed.
    pub open spec fn consistent(self) -> bool {
        self.failed.len() > 0 <==> self.code is Some
    }

    /// The tally with one install more.
    pub open spec fn with(self, name: Text, outcome: Outcome) -> TallyView {
        match failure(outcome) {
            None => TallyView { updated: self.updated.push(name), ..self },
            Some(code) => TallyView {
                failed: self.failed.push(name),
                code: match self.code {
                    Some(earlier) => Some(earlier),
                    None => Some(code),
                },
                ..self
            },
        }
    }

    /// The tally with the installs of `later` after its own.
    pub open spec fn followed_by(self, later: TallyView) -> TallyView {
        TallyView {
            updated: self.updated + later.updated,
            failed: self.failed + later.failed,
            code: match self.code {
                Some(earlier) => Some(earlier),
                None => later.code,
            },
        }
    }
}

impl Tally {
    /// Nothing was tried yet.
    pub fn empty() -> (tally: Tally)
        ensures
            tally@ == TallyView::empty(),
    {
        let tally = Tally { updated: Vec::new(), failed: Vec::new(), code: None };
        assert(tally@ =~= TallyView::empty());
        tally
    }

    /// A copy of the tally.
    pub(crate) fn copy(&self) -> (copy: Tally)
        ensures
            copy@ == self@,
    {
        let copy = Tally {
            updated: copy_texts(&self.updated),
            failed: copy_texts(&self.failed),
            code: self.code,
        };
        assert(copy@ =~= self@);
        copy
    }

    /// Takes down how the install of a package went.
    pub fn record(&mut self, name: String, outcome: Outcome)
        ensures
            final(self)@ == old(self)@.with(name@, outcome),
    {
        let ghost before = self@;
        let ghost written = name@;
        if outcome.success {
            self.updated.push(name);
        } else {
            self.failed.push(name);
            if self.code.is_none() {
                self.code = Some(
                    match outcome.code {
                        Some(code) => code,
                        None => -1,
                    },
                );
            }
        }
        assert(self@ =~= before.with(written, outcome));
    }

    /// Takes over what `later` holds, after what is there.
    pub fn extend(&mut self, later: Tally)
        ensures
            final(self)@ == old(self)@.followed_by(later@),
    {
        let ghost before = self@;
        let ghost added = later@;
        let Tally { mut updated, mut failed, code } = later;
        self.updated.append(&mut updated);
        self.failed.append(&mut failed);
        if self.code.is_none() {
            self.code = code;
        }
        assert(self@ =~= before.followed_by(added));
    }
}

/// What is said once packages of a kind were updated.
pub open spec fn updated_report(kind: Text, count: nat) -> Text {
    "\nUpdated "@ + decimal(count) + " "@ + kind + (if count == 1 {
        ""@
    } else {
        "s"@
    }) + ".\n"@
}

/// What is said where packages could not be updated.
pub open spec fn failed_report(names: Seq<Text>) -> Text {
    "Failed to update "@ + joined(names) + ".\n\n"@
}

/// A number of packages and their names.
pub open spec fn listing(names: Seq<Text>) -> Text {
    decimal(names.len()) + " package"@ + (if names.len() == 0 {
        "s"@
    } else if names.len() == 1 {
        ": "@
    } else {
        "s: "@
    }) + joined(names) + ".\n"@
}

/// What is said of all that was updated.
pub open spec fn overall_updated(names: Seq<Text>) -> Text {
    "Overall updated "@ + listing(names)
}

/// What is said of all that could not be updated.
pub open spec fn overall_failed(names: Seq<Text>) -> Text {
    "Overall failed to update "@ + listing(names)
}

/// What is said once packages of a kind were updated.
pub fn make_updated_report(kind: &str, count: usize) -> (text: String)
    ensures
        text@ == updated_report(kind@, count as nat),
{
    let mut text: String = "\nUpdated ".to_owned();
    text.append(number(count).as_str());
    text.append(" ");
    text.append(kind);
    text.append(if count == 1 { "" } else { "s" });
    text.append(".\n");
    text
}

/// What is said where packages could not be updated.
pub fn make_failed_report(names: &Vec<String>) -> (text: String)
    ensures
        text@ == failed_report(views(names@)),
{
    let mut text: String = "Failed to update ".to_owned();
    text.append(join(names).as_str());
    text.append(".\n\n");
    text
}

/// A number of packages and their names.
fn make_listing(names: &Vec<String>) -> (text: String)
    ensures
        text@ == listing(views(names@)),
{
    let mut text: String = number(names.len());
    text.append(" package");
    text.append(
        if names.len() == 0 {
            "s"
        } else if names.len() == 1 {
            ": "
        } else {
            "s: "
        },
    );
    text.append(join(names).as_str());
    text.append(".\n");
    text
}

/// What is said of all that was updated.
pub fn make_overall_updated(names: &Vec<String>) -> (text: String)
    ensures
        text@ == overall_updated(views(names@)),
{
    "Overall updated ".to_owned().concat(make_listing(names).as_str())
}

/// What is said of all that could not be updated.
pub fn make_overall_failed(names: &Vec<String>) -> (text: String)
    ensures
        text@ == overall_failed(views(names@)),
{
    "Overall failed to update ".to_owned().concat(make_listing(names).as_str())
}

/// The tally of some installs, in the order in which they were tried.
pub open spec fn tally_of(names: Seq<Text>, outcomes: Seq<Outcome>) -> TallyView
    decreases outcomes.len(),
{
    if outcomes.len() == 0 {
        TallyView::empty()
    } else {
        tally_of(names.drop_last(), outcomes.drop_last()).with(names.last(), outcomes.last())
    }
}

/// The names of those installs that ended well, or of those that did not.
pub open spec fn names_ending(names: Seq<Text>, outcomes: Seq<Outcome>, success: bool) -> Seq<
    Text,
>
    decreases outcomes.len(),
{
    if outcomes.len() == 0 {
        Seq::empty()
    } else {
        let front = names_ending(names.drop_last(), outcomes.drop_last(), success);
        if outcomes.last().success == success {
            front.push(names.last())
        } else {
            front
        }
    }
}

/// The exit code of the first failure.
pub open spec fn first_failure(outcomes: Seq<Outcome>) -> Option<i32>
    decreases outcomes.len(),
{
    if outcomes.len() == 0 {
        None
    } else if failure(outcomes[0]) is Some {
        failure(outcomes[0])
    } else {
        first_failure(outcomes.drop_first())
    }
}

/// Where something failed before, a later outcome does not change the first failure; else it
/// decides.
pub proof fn lemma_first_failure_push(outcomes: Seq<Outcome>, outcome: Outcome)
    ensures
        first_failure(outcomes.push(outcome)) == match first_failure(outcomes) {
            Some(code) => Some(code),
            None => failure(outcome),
        },
    decreases outcomes.len(),
{
    let whole = outcomes.push(outcome);
    if outcomes.len() == 0 {
        assert(whole.drop_first() =~= Seq::empty());
        assert(first_failure(whole.drop_first()) is None);
    } else {
        assert(whole.drop_first() =~= outcomes.drop_first().push(outcome));
        lemma_first_failure_push(outcomes.drop_first(), outcome);
    }
}

/// A tally names each package once: among the updated ones where its install ended well, among
/// the failed ones where not, each time in the order in which they were tried. Its exit code is
/// that of the first failure, and there is one exactly where something failed.
pub proof fn lemma_tally_of(names: Seq<Text>, outcomes: Seq<Outcome>)
    requires
        names.len() == outcomes.len(),
    ensures
        tally_of(names, outcomes).updated == names_ending(names, outcomes, true),
        tally_of(names, outcomes).failed == names_ending(names, outcomes, false),
        tally_of(names, outcomes).code == first_failure(outcomes),
        tally_of(names, outcomes).consistent(),
        tally_of(names, outcomes).updated.len() + tally_of(names, outcomes).failed.len()
            == names.len(),
    decreases outcomes.len(),
{
    if outcomes.len() > 0 {
        let front = outcomes.drop_last();
        lemma_tally_of(names.drop_last(), front);
        assert(front.push(outcomes.last()) =~= outcomes);
        lemma_first_failure_push(front, outcomes.last());
    }
}

/// The tally of installs tried in two batches is that of the first followed by that of the
/// second.
pub proof fn lemma_tally_of_batches(
    names: Seq<Text>,
    outcomes: Seq<Outcome>,
    later_names: Seq<Text>,
    later_outcomes: Seq<Outcome>,
)
    requires
        names.len() == outcomes.len(),
        later_names.len() == later_outcomes.len(),
    ensures
        tally_of(names + later_names, outcomes + later_outcomes) == tally_of(
            names,
            outcomes,
        ).followed_by(tally_of(later_names, later_outcomes)),
    decreases later_outcomes.len(),
{
    let earlier = tally_of(names, outcomes);
    if later_outcomes.len() == 0 {
        assert(names + later_names =~= names);
        assert(outcomes + later_outcomes =~= outcomes);
        assert(earlier.followed_by(TallyView::empty()) =~= earlier);
    } else {
        lemma_tally_of_batches(
            names,
            outcomes,
            later_names.drop_last(),
            later_outcomes.drop_last(),
        );
        assert((names + later_names).drop_last() =~= names + later_names.drop_last());
        assert((outcomes + later_outcomes).drop_last() =~= outcomes + later_outcomes.drop_last());
        let front = tally_of(later_names.drop_last(), later_outcomes.drop_last());
        let last = later_names.last();
        let outcome = later_outcomes.last();
        assert(earlier.followed_by(front).with(last, outcome) =~= earlier.followed_by(
            front.with(last, outcome),
        ));
    }
}

} // verus!
