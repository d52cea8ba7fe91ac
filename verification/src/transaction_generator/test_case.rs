//! Test cases and how they are read off a folder.
//!
//! A test case is a folder. Each of its steps is a Move file or a folder of
//! Move sources whose name starts with the number of the step and an
//! underscore: `0_first_step.move`, `1_second_step`. The steps are run in the
//! order of their numbers, which must follow one another without a gap.

use crate::decimal::{decimal, push_decimal};
use vstd::multiset::Multiset;
use vstd::prelude::*;
use vstd::seq_lib::{to_multiset_build, to_multiset_contains, to_multiset_len, to_multiset_remove};
use vstd::string::*;

verus! {

/// The extension of a Move file.
pub const MOVE_FILE_EXTENSION: &'static str = "move";

/// The byte that parts the number of a step from the rest of its name.
pub const TEST_CASE_NAME_SPLITTER: u8 = 95;

/// Where a step of a test case comes from.
#[derive(Debug, PartialEq, Eq)]
pub enum MoveSource {
    /// A single file; no compilation is needed.
    SimpleMoveFile(String),
    /// A folder that has to be compiled.
    MoveDirectory(String),
}

/// What is known of one entry of a folder.
#[derive(Debug)]
pub struct FolderEntry {
    pub path: String,
    pub file_name: String,
    pub is_file: bool,
    pub is_dir: bool,
    /// The extension of the file name, without the dot.
    pub extension: Option<String>,
}

/// Why a test case could not be read off its folder.
#[derive(Clone, Copy, Debug, PartialEq, Eq, Structural)]
pub enum LoadError {
    /// The name of the entry at this position has a first part that is not a number.
    InvalidStepIndex(usize),
    /// The entry at this position is a file without an extension.
    MissingExtension(usize),
    /// No entry of the folder is a step.
    NoMoveFiles,
    /// The numbers of the steps do not follow one another without a gap.
    NotConsecutive,
}

/// The text of an error for the test case of a folder, where `folder` is
/// the path of the folder as it is shown.
pub open spec fn load_error_text(error: LoadError, folder: Seq<char>) -> Seq<char> {
    match error {
        LoadError::InvalidStepIndex(position) => "Step number is not a number at entry "@
            + decimal(position as nat) + " of "@ + folder + "."@,
        LoadError::MissingExtension(position) => "File has no extension at entry "@ + decimal(
            position as nat,
        ) + " of "@ + folder + "."@,
        LoadError::NoMoveFiles => "No move files found in the test case folder at "@ + folder + "."@,
        LoadError::NotConsecutive => "Move files are not consecutive "@ + folder
            + "."@,
    }
}

impl LoadError {
    /// The text of the error for the test case of a folder, where `folder`
    /// is the path of the folder as it is shown.
    pub fn message(&self, folder: &str) -> (text: String)
        ensures
            text@ == load_error_text(*self, folder@),
    {
        let shown = folder;
        match self {
            LoadError::InvalidStepIndex(position) => {
                let mut text = String::from_str("Step number is not a number at entry ");
                push_decimal(&mut text, *position as u64);
                text.append(" of ");
                text.append(shown);
                text.append(".");
                text
            },
            LoadError::MissingExtension(position) => {
                let mut text = String::from_str("File has no extension at entry ");
                push_decimal(&mut text, *position as u64);
                text.append(" of ");
                text.append(shown);
                text.append(".");
                text
            },
            LoadError::NoMoveFiles => {
                let mut text = String::from_str("No move files found in the test case folder at ");
                text.append(shown);
                text.append(".");
                text
            },
            LoadError::NotConsecutive => {
                let mut text = String::from_str("Move files are not consecutive ");
                text.append(shown);
                text.append(".");
                text
            },
        }
    }
}

/// What can go wrong when the folders of the test cases are looked through.
#[derive(Clone, Copy, Debug, PartialEq, Eq, Structural)]
pub enum FolderError {
    /// The folder of a test case is not there, or is no folder.
    NotAFolder,
    /// The folder of a test case cannot be listed.
    CannotScan,
    /// An entry of the folder of a test case cannot be looked at.
    CannotScanEntry,
    /// The main folder is not there, or is no folder.
    NoMainFolder,
    /// An entry of the main folder cannot be looked at.
    CannotScanMainFolder,
    /// A test case of the main folder could not be loaded.
    TestCaseFailed,
}

/// What can go wrong when a step of a test case is submitted.
#[derive(Clone, Copy, Debug, PartialEq, Eq, Structural)]
pub enum SubmitError {
    /// The command line tool could not be run.
    CannotExecute,
    /// The step of the test case failed.
    ExecutionFailed,
    /// What the command line tool printed cannot be read.
    CannotParseOutput,
}

/// The text of an error for a folder, where `folder` is the path of the
/// folder as it is shown. The errors that name no folder have their text
/// whatever the folder.
pub open spec fn folder_error_text(error: FolderError, folder: Seq<char>) -> Seq<char> {
    match error {
        FolderError::NotAFolder => "Test case folder does not exist or path is not a folder at path "@
            + folder + "."@,
        FolderError::CannotScan => "Failed to scan test case folder at path "@ + folder,
        FolderError::CannotScanEntry => "Failed to scan move files for one test case."@,
        FolderError::NoMainFolder => "Main test case folder does not exist or path is not a folder at path "@
            + folder,
        FolderError::CannotScanMainFolder => "Failed to scan test cases due to FS issue."@,
        FolderError::TestCaseFailed => "One test case loading failed."@,
    }
}

impl FolderError {
    /// The text of the error for a folder, where `folder` is the path of
    /// the folder as it is shown.
    pub fn message(&self, folder: &str) -> (text: String)
        ensures
            text@ == folder_error_text(*self, folder@),
    {
        match self {
            FolderError::NotAFolder => {
                let mut text = String::from_str(
                    "Test case folder does not exist or path is not a folder at path ",
                );
                text.append(folder);
                text.append(".");
                text
            },
            FolderError::CannotScan => {
                let mut text = String::from_str("Failed to scan test case folder at path ");
                text.append(folder);
                text
            },
            FolderError::CannotScanEntry => String::from_str(
                "Failed to scan move files for one test case.",
            ),
            FolderError::NoMainFolder => {
                let mut text = String::from_str(
                    "Main test case folder does not exist or path is not a folder at path ",
                );
                text.append(folder);
                text
            },
            FolderError::CannotScanMainFolder => String::from_str(
                "Failed to scan test cases due to FS issue.",
            ),
            FolderError::TestCaseFailed => String::from_str("One test case loading failed."),
        }
    }
}

impl SubmitError {
    /// The text of the error.
    pub fn message(&self) -> (text: &'static str)
        ensures
            text@ == (match *self {
                SubmitError::CannotExecute => "Failed to execute move file."@,
                SubmitError::ExecutionFailed => "Test case execution failed."@,
                SubmitError::CannotParseOutput => "Failed to parse aptos output."@,
            }),
    {
        match self {
            SubmitError::CannotExecute => "Failed to execute move file.",
            SubmitError::ExecutionFailed => "Test case execution failed.",
            SubmitError::CannotParseOutput => "Failed to parse aptos output.",
        }
    }
}

/// One step of a test case.
pub struct Step {
    pub index: u32,
    pub source: MoveSource,
}

/// What the name of an entry says.
#[derive(Clone, Copy, Debug, PartialEq, Eq, Structural)]
pub enum StepName {
    /// The name has no underscore: the entry is no step.
    NotAStep,
    /// The part before the first underscore is not a number that fits 32 bits.
    Invalid,
    /// The number of the step.
    Step(u32),
}

/// The position of the first splitter from `from` on.
pub open spec fn first_splitter(name: Seq<u8>, from: int) -> Option<int>
    decreases name.len() - from,
{
    if from < 0 || from >= name.len() {
        None
    } else if name[from] == TEST_CASE_NAME_SPLITTER {
        Some(from)
    } else {
        first_splitter(name, from + 1)
    }
}

pub open spec fn is_digit(b: u8) -> bool {
    48 <= b <= 57
}

/// The number that a sequence of digits denotes.
pub open spec fn digits_value(digits: Seq<u8>) -> nat
    decreases digits.len(),
{
    if digits.len() == 0 {
        0
    } else {
        digits_value(digits.drop_last()) * 10 + (digits.last() - 48) as nat
    }
}

/// The digits of a number text: the text without a leading plus sign.
pub open spec fn digits_of(text: Seq<u8>) -> Seq<u8> {
    if text.len() > 0 && text[0] == 43 {
        text.subrange(1, text.len() as int)
    } else {
        text
    }
}

/// The number that a text denotes: an optional plus sign, then one digit or
/// more, with a value that fits 32 bits.
pub open spec fn parse_u32(text: Seq<u8>) -> Option<u32> {
    let digits = digits_of(text);
    if digits.len() > 0 && (forall|i: int| 0 <= i < digits.len() ==> is_digit(#[trigger] digits[i]))
        && digits_value(digits) <= u32::MAX {
        Some(digits_value(digits) as u32)
    } else {
        None
    }
}

/// What a file name says about the step that its entry is.
pub open spec fn step_name(name: Seq<u8>) -> StepName {
    match first_splitter(name, 0) {
        None => StepName::NotAStep,
        Some(p) => match parse_u32(name.subrange(0, p)) {
            None => StepName::Invalid,
            Some(index) => StepName::Step(index),
        },
    }
}

/// What an entry of a folder is taken for.
pub enum Classified {
    /// The entry is no step and is passed over.
    Skipped,
    Step(Step),
    InvalidStepIndex,
    MissingExtension,
}

/// What an entry of a folder is taken for: a file counts where its
/// extension is that of Move files, a folder counts as it is.
pub open spec fn classify(e: FolderEntry) -> Classified {
    match step_name(vstd::utf8::encode_utf8(e.file_name@)) {
        StepName::NotAStep => Classified::Skipped,
        StepName::Invalid => Classified::InvalidStepIndex,
        StepName::Step(index) => {
            if e.is_file && e.extension is None {
                Classified::MissingExtension
            } else if e.is_file && e.extension->0@ == MOVE_FILE_EXTENSION@ {
                Classified::Step(Step { index, source: MoveSource::SimpleMoveFile(e.path) })
            } else if e.is_dir {
                Classified::Step(Step { index, source: MoveSource::MoveDirectory(e.path) })
            } else {
                Classified::Skipped
            }
        },
    }
}

/// The steps among the entries, in the order of the entries.
pub open spec fn steps_of(entries: Seq<FolderEntry>) -> Seq<Step>
    decreases entries.len(),
{
    if entries.len() == 0 {
        Seq::empty()
    } else {
        let before = steps_of(entries.drop_last());
        match classify(entries.last()) {
            Classified::Step(step) => before.push(step),
            _ => before,
        }
    }
}

/// The first entry that cannot be read, with what is wrong with it.
pub open spec fn first_problem(entries: Seq<FolderEntry>) -> Option<LoadError>
    decreases entries.len(),
{
    if entries.len() == 0 {
        None
    } else {
        match first_problem(entries.drop_last()) {
            Some(e) => Some(e),
            None => match classify(entries.last()) {
                Classified::InvalidStepIndex => Some(
                    LoadError::InvalidStepIndex((entries.len() - 1) as usize),
                ),
                Classified::MissingExtension => Some(
                    LoadError::MissingExtension((entries.len() - 1) as usize),
                ),
                _ => None,
            },
        }
    }
}

/// The number of steps at the front of `steps` that do not come after a step `index`.
pub open spec fn place_for(steps: Seq<Step>, index: u32) -> int
    decreases steps.len(),
{
    if steps.len() == 0 {
        0
    } else if steps.last().index <= index {
        steps.len() as int
    } else {
        place_for(steps.drop_last(), index)
    }
}

/// The steps in the order of their numbers; steps of one number keep their order.
pub open spec fn sorted_steps(steps: Seq<Step>) -> Seq<Step>
    decreases steps.len(),
{
    if steps.len() == 0 {
        Seq::empty()
    } else {
        let before = sorted_steps(steps.drop_last());
        before.insert(place_for(before, steps.last().index), steps.last())
    }
}

/// The numbers of the steps do not fall from one step to the next.
pub open spec fn ordered(steps: Seq<Step>) -> bool {
    forall|i: int, j: int| 0 <= i <= j < steps.len() ==> steps[i].index <= steps[j].index
}

/// The numbers of the steps follow one another without a gap.
pub open spec fn consecutive(steps: Seq<Step>) -> bool {
    forall|i: int| 0 <= i < steps.len() ==> (#[trigger] steps[i]).index == steps[0].index + i
}

/// The sources of the steps.
pub open spec fn sources_of(steps: Seq<Step>) -> Seq<MoveSource> {
    Seq::new(steps.len(), |i: int| steps[i].source)
}

/// What reading a test case off the entries of its folder gives.
pub open spec fn load_spec(entries: Seq<FolderEntry>) -> Result<Seq<MoveSource>, LoadError> {
    match first_problem(entries) {
        Some(e) => Err(e),
        None => {
            let steps = sorted_steps(steps_of(entries));
            if steps.len() == 0 {
                Err(LoadError::NoMoveFiles)
            } else if !consecutive(steps) {
                Err(LoadError::NotConsecutive)
            } else {
                Ok(sources_of(steps))
            }
        },
    }
}

/// In sorted steps the place for a step is behind every step that does not
/// come after it and before every step that does.
pub proof fn lemma_place_for(steps: Seq<Step>, index: u32)
    requires
        ordered(steps),
    ensures
        0 <= place_for(steps, index) <= steps.len(),
        forall|i: int| 0 <= i < place_for(steps, index) ==> steps[i].index <= index,
        forall|i: int| place_for(steps, index) <= i < steps.len() ==> steps[i].index > index,
    decreases steps.len(),
{
    if steps.len() > 0 && steps.last().index > index {
        let front = steps.drop_last();
        assert forall|i: int, j: int| 0 <= i <= j < front.len() implies front[i].index
            <= front[j].index by {
            assert(steps[i].index <= steps[j].index);
        }
        lemma_place_for(front, index);
        let p = place_for(front, index);
        assert forall|i: int| 0 <= i < p implies steps[i].index <= index by {
            assert(steps[i] == front[i]);
        }
        assert forall|i: int| p <= i < steps.len() implies steps[i].index > index by {
            if i < front.len() {
                assert(steps[i] == front[i]);
            }
        }
    } else if steps.len() > 0 {
        assert forall|i: int| 0 <= i < steps.len() implies steps[i].index <= index by {
            assert(steps[i].index <= steps[steps.len() - 1].index);
        }
    }
}

/// Sorting keeps every step, once each, and puts the steps in the order of their numbers.
pub proof fn lemma_sorted_steps(steps: Seq<Step>)
    ensures
        ordered(sorted_steps(steps)),
        sorted_steps(steps).len() == steps.len(),
        sorted_steps(steps).to_multiset() == steps.to_multiset(),
    decreases steps.len(),
{
    if steps.len() > 0 {
        let front = steps.drop_last();
        let last = steps.last();
        lemma_sorted_steps(front);
        let before = sorted_steps(front);
        let p = place_for(before, last.index);
        lemma_place_for(before, last.index);
        let after = before.insert(p, last);
        assert forall|i: int, j: int| 0 <= i <= j < after.len() implies after[i].index
            <= after[j].index by {
            let bi = if i < p {
                i
            } else {
                i - 1
            };
            let bj = if j < p {
                j
            } else {
                j - 1
            };
            if i != p && j != p {
                assert(before[bi].index <= before[bj].index);
            }
        }
        vstd::seq_lib::to_multiset_insert(before, p, last);
        assert(steps == front.push(last));
        vstd::seq_lib::to_multiset_build(front, last);
    } else {
        assert(sorted_steps(steps) =~= steps);
    }
}

/// The step that an entry is, as a multiset of one step or of none.
pub open spec fn step_of(e: FolderEntry) -> Multiset<Step> {
    match classify(e) {
        Classified::Step(step) => Multiset::empty().insert(step),
        _ => Multiset::empty(),
    }
}

/// The entry can be read: its name is well formed, and it has an extension
/// where it is a file that is a step.
pub open spec fn readable(e: FolderEntry) -> bool {
    !(classify(e) is InvalidStepIndex) && !(classify(e) is MissingExtension)
}

/// There is no problem exactly where every entry can be read.
pub proof fn lemma_first_problem_none(entries: Seq<FolderEntry>)
    ensures
        first_problem(entries) is None <==> forall|i: int|
            0 <= i < entries.len() ==> readable(#[trigger] entries[i]),
    decreases entries.len(),
{
    if entries.len() > 0 {
        let front = entries.drop_last();
        lemma_first_problem_none(front);
        if first_problem(entries) is None {
            assert forall|i: int| 0 <= i < entries.len() implies readable(
                #[trigger] entries[i],
            ) by {
                if i < front.len() {
                    assert(front[i] == entries[i]);
                }
            }
        }
        if forall|i: int| 0 <= i < entries.len() ==> readable(#[trigger] entries[i]) {
            assert forall|i: int| 0 <= i < front.len() implies readable(#[trigger] front[i]) by {
                assert(front[i] == entries[i]);
            }
            assert(readable(entries[entries.len() - 1]));
        }
    }
}

/// Without one entry, the steps are those of all entries without the step of that entry.
proof fn lemma_steps_of_remove(entries: Seq<FolderEntry>, p: int)
    requires
        0 <= p < entries.len(),
    ensures
        steps_of(entries).to_multiset() =~= steps_of(entries.remove(p)).to_multiset().add(
            step_of(entries[p]),
        ),
    decreases entries.len(),
{
    let front = entries.drop_last();
    let last = entries.last();
    if p == entries.len() - 1 {
        assert(entries.remove(p) == front);
        match classify(last) {
            Classified::Step(step) => {
                to_multiset_build(steps_of(front), step);
            },
            _ => {},
        }
    } else {
        lemma_steps_of_remove(front, p);
        let rest = entries.remove(p);
        assert(rest.drop_last() == front.remove(p));
        assert(rest.last() == last);
        assert(front[p] == entries[p]);
        match classify(last) {
            Classified::Step(step) => {
                to_multiset_build(steps_of(front), step);
                to_multiset_build(steps_of(front.remove(p)), step);
            },
            _ => {},
        }
    }
}

/// The steps of a folder, as a multiset, do not depend on the order in
/// which the entries of the folder are listed.
pub proof fn lemma_steps_ignore_listing_order(a: Seq<FolderEntry>, b: Seq<FolderEntry>)
    requires
        a.to_multiset() == b.to_multiset(),
    ensures
        steps_of(a).to_multiset() == steps_of(b).to_multiset(),
    decreases a.len(),
{
    to_multiset_len(a);
    to_multiset_len(b);
    if a.len() == 0 {
        assert(b.len() == 0);
        assert(a =~= b);
    } else {
        let last = a.last();
        assert(a.contains(last)) by {
            assert(a[a.len() - 1] == last);
        }
        to_multiset_contains(a, last);
        to_multiset_contains(b, last);
        let p = choose|p: int| 0 <= p < b.len() && b[p] == last;
        to_multiset_remove(a, a.len() - 1);
        to_multiset_remove(b, p);
        assert(a.remove(a.len() - 1) == a.drop_last());
        lemma_steps_ignore_listing_order(a.drop_last(), b.remove(p));
        lemma_steps_of_remove(a, a.len() - 1);
        lemma_steps_of_remove(b, p);
        assert(steps_of(a).to_multiset() =~= steps_of(b).to_multiset());
    }
}

/// Steps whose numbers follow one another without a gap can be put in the
/// order of their numbers in one way only.
pub proof fn lemma_one_order(x: Seq<Step>, y: Seq<Step>)
    requires
        ordered(x),
        ordered(y),
        consecutive(x),
        x.to_multiset() == y.to_multiset(),
    ensures
        x == y,
    decreases x.len(),
{
    to_multiset_len(x);
    to_multiset_len(y);
    if x.len() == 0 {
        assert(x =~= y);
    } else {
        let n = x.len() as int;
        let xl = x.last();
        let yl = y.last();
        assert(x.contains(xl)) by {
            assert(x[n - 1] == xl);
        }
        assert(y.contains(yl)) by {
            assert(y[n - 1] == yl);
        }
        to_multiset_contains(x, xl);
        to_multiset_contains(y, xl);
        to_multiset_contains(x, yl);
        to_multiset_contains(y, yl);
        let k = choose|k: int| 0 <= k < x.len() && x[k] == yl;
        let m = choose|m: int| 0 <= m < y.len() && y[m] == xl;
        assert(y[m].index <= y[n - 1].index);
        assert(x[k].index == x[0].index + k);
        assert(x[n - 1].index == x[0].index + (n - 1));
        assert(k == n - 1);
        assert(xl == yl);
        to_multiset_remove(x, n - 1);
        to_multiset_remove(y, n - 1);
        let xf = x.drop_last();
        let yf = y.drop_last();
        assert(x.remove(n - 1) == xf);
        assert(y.remove(n - 1) == yf);
        assert forall|i: int, j: int| 0 <= i <= j < xf.len() implies xf[i].index
            <= xf[j].index by {
            assert(x[i].index <= x[j].index);
        }
        assert forall|i: int, j: int| 0 <= i <= j < yf.len() implies yf[i].index
            <= yf[j].index by {
            assert(y[i].index <= y[j].index);
        }
        assert forall|i: int| 0 <= i < xf.len() implies (#[trigger] xf[i]).index == xf[0].index
            + i by {
            assert(x[i].index == x[0].index + i);
            assert(x[0].index == x[0].index + 0);
        }
        lemma_one_order(xf, yf);
        assert(x =~= xf.push(xl));
        assert(y =~= yf.push(yl));
    }
}

/// What is read off a folder does not depend on the order in which the file
/// system lists the entries of the folder.
///
/// Let two listings hold the same entries, each as often as the other, and
/// let every entry of the first be readable. Then every entry of the second
/// is readable, and both listings give the same test case or the same error:
/// the steps in the order of their numbers, where these follow one another
/// without a gap.
pub proof fn lemma_load_ignores_listing_order(a: Seq<FolderEntry>, b: Seq<FolderEntry>)
    requires
        a.to_multiset() == b.to_multiset(),
        first_problem(a) is None,
    ensures
        first_problem(b) is None,
        load_spec(a) == load_spec(b),
{
    lemma_first_problem_none(a);
    lemma_first_problem_none(b);
    assert forall|i: int| 0 <= i < b.len() implies readable(#[trigger] b[i]) by {
        assert(b.contains(b[i]));
        to_multiset_contains(b, b[i]);
        to_multiset_contains(a, b[i]);
        let j = choose|j: int| 0 <= j < a.len() && a[j] == b[i];
        assert(readable(a[j]));
    }
    lemma_steps_ignore_listing_order(a, b);
    let x = sorted_steps(steps_of(a));
    let y = sorted_steps(steps_of(b));
    lemma_sorted_steps(steps_of(a));
    lemma_sorted_steps(steps_of(b));
    to_multiset_len(steps_of(a));
    to_multiset_len(steps_of(b));
    assert(x.len() == y.len());
    if x.len() > 0 {
        if consecutive(x) {
            lemma_one_order(x, y);
        } else if consecutive(y) {
            lemma_one_order(y, x);
        }
    }
}

/// A test case: its folder, and the sources of its steps in the order in which they are run.
pub struct TestCase {
    test_case_folder: String,
    move_sources: Vec<MoveSource>,
}

/// The position of the first splitter in `name`, if there is one.
fn find_splitter(name: &[u8]) -> (result: Option<usize>)
    ensures
        match result {
            Some(p) => first_splitter(name@, 0) == Some(p as int) && p < name.len(),
            None => first_splitter(name@, 0) is None,
        },
{
    let mut i: usize = 0;
    while i < name.len()
        invariant
            i <= name.len(),
            first_splitter(name@, 0) == first_splitter(name@, i as int),
        decreases name.len() - i,
    {
        if name[i] == TEST_CASE_NAME_SPLITTER {
            return Some(i);
        }
        i += 1;
    }
    None
}

/// The value of digits grows with every digit.
proof fn lemma_digits_value_step(digits: Seq<u8>, i: int)
    requires
        0 <= i < digits.len(),
    ensures
        digits_value(digits.take(i + 1)) == digits_value(digits.take(i)) * 10 + (digits[i] - 48) as nat,
{
    assert(digits.take(i + 1).drop_last() == digits.take(i));
}

/// More digits do not denote less.
proof fn lemma_digits_value_grows(digits: Seq<u8>, i: int)
    requires
        0 <= i <= digits.len(),
        forall|k: int| 0 <= k < digits.len() ==> is_digit(#[trigger] digits[k]),
    ensures
        digits_value(digits.take(i)) <= digits_value(digits),
    decreases digits.len() - i,
{
    if i < digits.len() {
        lemma_digits_value_step(digits, i);
        lemma_digits_value_grows(digits, i + 1);
    } else {
        assert(digits.take(i) == digits);
    }
}

/// Reads the number that the first `end` bytes of `name` denote.
fn parse_prefix(name: &[u8], end: usize) -> (result: Option<u32>)
    requires
        end <= name.len(),
    ensures
        result == parse_u32(name@.subrange(0, end as int)),
{
    let ghost text = name@.subrange(0, end as int);
    let start: usize = if end > 0 && name[0] == 43 {
        1
    } else {
        0
    };
    let ghost digits = digits_of(text);
    assert(digits == name@.subrange(start as int, end as int));
    if start == end {
        return None;
    }
    let mut value: u64 = 0;
    let mut i: usize = start;
    while i < end
        invariant
            start <= i <= end <= name.len(),
            digits == name@.subrange(start as int, end as int),
            forall|k: int| 0 <= k < i - start ==> is_digit(#[trigger] digits[k]),
            value == digits_value(digits.take(i - start)),
            value <= u32::MAX,
            digits.len() == end - start,
            digits == digits_of(name@.subrange(0, end as int)),
        decreases end - i,
    {
        let b = name[i];
        assert(digits[i - start] == b);
        if b < 48 || b > 57 {
            assert(!is_digit(digits[i - start]));
            return None;
        }
        proof {
            lemma_digits_value_step(digits, i - start);
        }
        let next = value * 10 + (b - 48) as u64;
        assert(next == digits_value(digits.take(i - start + 1)));
        if next > u32::MAX as u64 {
            proof {
                if forall|k: int| 0 <= k < digits.len() ==> is_digit(#[trigger] digits[k]) {
                    lemma_digits_value_grows(digits, i - start + 1);
                }
            }
            return None;
        }
        value = next;
        i += 1;
    }
    assert(digits.take(end - start) == digits);
    Some(value as u32)
}

/// A copy of a source.
fn copy_source(source: &MoveSource) -> (copy: MoveSource)
    ensures
        copy == *source,
{
    match source {
        MoveSource::SimpleMoveFile(path) => MoveSource::SimpleMoveFile(path.clone()),
        MoveSource::MoveDirectory(path) => MoveSource::MoveDirectory(path.clone()),
    }
}

/// Puts a step at its place among sorted steps.
fn insert_step(sorted: &mut Vec<Step>, step: Step)
    requires
        ordered(old(sorted)@),
    ensures
        final(sorted)@ == old(sorted)@.insert(place_for(old(sorted)@, step.index), step),
{
    let mut p: usize = sorted.len();
    assert(sorted@.take(p as int) == sorted@);
    while p > 0 && sorted[p - 1].index > step.index
        invariant
            p <= sorted.len(),
            sorted@ == old(sorted)@,
            place_for(sorted@, step.index) == place_for(sorted@.take(p as int), step.index),
        decreases p,
    {
        assert(sorted@.take(p as int).drop_last() == sorted@.take(p - 1));
        assert(sorted@.take(p as int).last() == sorted@[p - 1]);
        p -= 1;
    }
    proof {
        if p > 0 {
            assert(sorted@.take(p as int).last() == sorted@[p - 1]);
        }
    }
    sorted.insert(p, step);
}

/// What the name of an entry says.
pub fn read_step_name(file_name: &str) -> (result: StepName)
    ensures
        result == step_name(file_name.spec_bytes()),
{
    let name = file_name.as_bytes();
    match find_splitter(name) {
        None => StepName::NotAStep,
        Some(p) => match parse_prefix(name, p) {
            None => StepName::Invalid,
            Some(index) => StepName::Step(index),
        },
    }
}

impl TestCase {
    /// The folder of the test case.
    pub closed spec fn folder(&self) -> String {
        self.test_case_folder
    }

    /// The sources of the steps, in the order in which they are run.
    pub closed spec fn sources(&self) -> Seq<MoveSource> {
        self.move_sources@
    }

    /// The folder of the test case.
    pub fn test_case_folder(&self) -> (folder: &String)
        ensures
            *folder == self.folder(),
    {
        &self.test_case_folder
    }

    /// The sources of the steps, in the order in which they are run.
    pub fn move_sources(&self) -> (sources: &Vec<MoveSource>)
        ensures
            sources@ == self.sources(),
    {
        &self.move_sources
    }

    /// Reads a test case off the entries of its folder.
    ///
    /// An entry is a step where its name has a number before its first
    /// underscore and it is a Move file or a folder. The steps are put in the
    /// order of their numbers. The test case is there where no entry has a
    /// malformed name, there is a step, and the numbers of the steps follow
    /// one another without a gap: see [`load_spec`].
    pub fn load(test_case_folder: String, entries: &Vec<FolderEntry>) -> (result: Result<
        TestCase,
        LoadError,
    >)
        ensures
            match result {
                Ok(test_case) => load_spec(entries@) == Ok::<Seq<MoveSource>, LoadError>(
                    test_case.sources(),
                ) && test_case.folder() == test_case_folder,
                Err(e) => load_spec(entries@) == Err::<Seq<MoveSource>, LoadError>(e),
            },
    {
        let mut sorted: Vec<Step> = Vec::new();
        let mut p: usize = 0;
        while p < entries.len()
            invariant
                p <= entries.len(),
                first_problem(entries@.take(p as int)) is None,
                sorted@ == sorted_steps(steps_of(entries@.take(p as int))),
            decreases entries.len() - p,
        {
            let ghost before = entries@.take(p as int);
            let ghost after = entries@.take(p + 1);
            proof {
                assert(after.drop_last() == before);
                assert(after.last() == entries@[p as int]);
                lemma_sorted_steps(steps_of(before));
            }
            match classify_entry(&entries[p]) {
                Classified::Skipped => {},
                Classified::InvalidStepIndex => {
                    proof {
                        lemma_first_problem_stays(entries@, p + 1);
                    }
                    return Err(LoadError::InvalidStepIndex(p));
                },
                Classified::MissingExtension => {
                    proof {
                        lemma_first_problem_stays(entries@, p + 1);
                    }
                    return Err(LoadError::MissingExtension(p));
                },
                Classified::Step(step) => {
                    assert(steps_of(before).push(step).drop_last() == steps_of(before));
                    insert_step(&mut sorted, step);
                },
            }
            p += 1;
        }
        assert(entries@.take(entries@.len() as int) == entries@);
        if sorted.len() == 0 {
            return Err(LoadError::NoMoveFiles);
        }
        let first = sorted[0].index;
        let mut move_sources: Vec<MoveSource> = Vec::new();
        let mut i: usize = 0;
        while i < sorted.len()
            invariant
                i <= sorted.len(),
                sorted.len() > 0,
                first_problem(entries@) is None,
                sorted@ == sorted_steps(steps_of(entries@)),
                first == sorted[0].index,
                move_sources.len() == i,
                forall|k: int| 0 <= k < i ==> (#[trigger] sorted[k]).index == first + k,
                forall|k: int| 0 <= k < i ==> move_sources[k] == sorted[k].source,
            decreases sorted.len() - i,
        {
            if sorted[i].index as u128 != first as u128 + i as u128 {
                assert(sorted@[i as int].index != sorted@[0].index + i);
                return Err(LoadError::NotConsecutive);
            }
            move_sources.push(copy_source(&sorted[i].source));
            i += 1;
        }
        assert(move_sources@ =~= sources_of(sorted@));
        Ok(TestCase { test_case_folder, move_sources })
    }
}

/// What an entry of a folder is taken for.
pub fn classify_entry(e: &FolderEntry) -> (result: Classified)
    ensures
        result == classify(*e),
{
    match read_step_name(e.file_name.as_str()) {
        StepName::NotAStep => Classified::Skipped,
        StepName::Invalid => Classified::InvalidStepIndex,
        StepName::Step(index) => {
            if e.is_file {
                match &e.extension {
                    None => Classified::MissingExtension,
                    Some(extension) => {
                        if *extension == String::from_str(MOVE_FILE_EXTENSION) {
                            Classified::Step(
                                Step { index, source: MoveSource::SimpleMoveFile(e.path.clone()) },
                            )
                        } else if e.is_dir {
                            Classified::Step(
                                Step { index, source: MoveSource::MoveDirectory(e.path.clone()) },
                            )
                        } else {
                            Classified::Skipped
                        }
                    },
                }
            } else if e.is_dir {
                Classified::Step(Step { index, source: MoveSource::MoveDirectory(e.path.clone()) })
            } else {
                Classified::Skipped
            }
        },
    }
}

/// A problem among the first entries is the first problem of all entries.
proof fn lemma_first_problem_stays(entries: Seq<FolderEntry>, upto: int)
    requires
        0 <= upto <= entries.len(),
        first_problem(entries.take(upto)) is Some,
    ensures
        first_problem(entries) == first_problem(entries.take(upto)),
    decreases entries.len() - upto,
{
    if upto < entries.len() {
        assert(entries.take(upto + 1).drop_last() == entries.take(upto));
        lemma_first_problem_stays(entries, upto + 1);
    } else {
        assert(entries.take(upto) == entries);
    }
}

/// The arguments with which the command line tool submits a step, or
/// `None` for a step that has to be compiled first, which cannot be submitted.
pub fn submit_arguments(source: &MoveSource) -> (result: Option<Vec<String>>)
    ensures
        match *source {
            MoveSource::SimpleMoveFile(path) => result matches Some(arguments) && arguments@.len()
                == 5 && arguments@[0]@ == "move"@ && arguments@[1]@ == "run-script"@
                && arguments@[2]@ == "--script-path"@ && arguments@[3] == path && arguments@[4]@
                == "--assume-yes"@,
            MoveSource::MoveDirectory(_) => result is None,
        },
{
    match source {
        MoveSource::SimpleMoveFile(path) => {
            let mut arguments: Vec<String> = Vec::new();
            arguments.push(String::from_str("move"));
            arguments.push(String::from_str("run-script"));
            arguments.push(String::from_str("--script-path"));
            arguments.push(path.clone());
            arguments.push(String::from_str("--assume-yes"));
            Some(arguments)
        },
        MoveSource::MoveDirectory(_) => None,
    }
}

/// Whether an entry of the main folder is the folder of a test case: a
/// folder whose name starts with `test`.
pub fn is_test_case_folder(file_name: &str, is_dir: bool) -> (result: bool)
    ensures
        result == (is_dir && file_name.spec_bytes().len() >= 4 && file_name.spec_bytes().subrange(
            0,
            4,
        ) == seq![116u8, 101u8, 115u8, 116u8]),
{
    let name = file_name.as_bytes();
    if is_dir && name.len() >= 4 {
        let matches = name[0] == 116 && name[1] == 101 && name[2] == 115 && name[3] == 116;
        assert(matches == (name@.subrange(0, 4) =~= seq![116u8, 101u8, 115u8, 116u8])) by {
            if name@.subrange(0, 4) == seq![116u8, 101u8, 115u8, 116u8] {
                assert(name@.subrange(0, 4)[0] == 116u8);
                assert(name@.subrange(0, 4)[1] == 101u8);
                assert(name@.subrange(0, 4)[2] == 115u8);
                assert(name@.subrange(0, 4)[3] == 116u8);
            }
        }
        matches
    } else {
        false
    }
}

} // verus!
