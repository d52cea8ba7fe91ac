//! Test cases that come with a configuration: a folder that holds a
//! configuration file and the Move files to run, which are run in the order
//! of their names.

use vstd::prelude::*;
use vstd::string::*;

verus! {

/// The name of the configuration file of a test case.
pub const TEST_CASE_CONFIG_FILE_NAME: &'static str = "test_case_config.yaml";

/// The extension of a Move file.
pub const MOVE_FILE_EXTENSION: &'static str = "move";

/// The arguments of the generator: the path to the main folder of the test cases.
#[derive(Debug)]
pub struct TransactionGeneratorArgs {
    pub test_cases_folder: String,
}

/// The configuration of a test case: how many transactions are captured,
/// and of which types.
#[derive(Debug)]
pub struct TestCaseConfig<T> {
    pub number_of_transactions: u64,
    pub transaction_type_filter: Vec<T>,
}

/// A file of a test case folder.
#[derive(Debug)]
pub struct FolderFile {
    pub path: String,
    pub file_name: String,
    pub is_file: bool,
    /// The extension of the file name, without the dot.
    pub extension: Option<String>,
}

/// A test case with its configuration.
pub struct TestCase<T> {
    test_case_folder: String,
    test_case_config: TestCaseConfig<T>,
    move_files: Vec<FolderFile>,
}

/// What can go wrong when a test case with a configuration is read.
#[derive(Clone, Copy, Debug, PartialEq, Eq, Structural)]
pub enum ConfigError {
    /// The folder of the test case is not there, or is no folder.
    NotAFolder,
    /// The configuration file is not there.
    ConfigNotFound,
    /// The configuration file cannot be read as a configuration.
    ConfigMalformed,
    /// The folder of the test case cannot be listed.
    CannotScan,
    /// An entry of the folder of the test case cannot be looked at.
    CannotScanEntry,
    /// The main folder is not there, or is no folder.
    NoMainFolder,
    /// An entry of the main folder cannot be looked at.
    CannotScanMainFolder,
    /// A test case of the main folder could not be loaded.
    TestCaseFailed,
}

/// The text of an error, where `path` is the path of the folder or of the
/// file that the error is about, as it is shown. The errors that name no
/// path have their text whatever the path.
pub open spec fn config_error_text(error: ConfigError, path: Seq<char>) -> Seq<char> {
    match error {
        ConfigError::NotAFolder => "Test case folder does not exist or path is not a folder at "@
            + path + "."@,
        ConfigError::ConfigNotFound => "Config file not found at "@ + path + "."@,
        ConfigError::ConfigMalformed => "Config file is malformed at "@ + path + "."@,
        ConfigError::CannotScan => "Failed to scan test case folder at "@ + path,
        ConfigError::CannotScanEntry => "Failed to scan move files for one test case."@,
        ConfigError::NoMainFolder => "Main test case folder does not exist or path is not a folder at "@
            + path,
        ConfigError::CannotScanMainFolder => "Failed to scan test cases due to FS issue."@,
        ConfigError::TestCaseFailed => "One test case loading failed."@,
    }
}

impl ConfigError {
    /// The text of the error, where `path` is the path that the error is
    /// about, as it is shown.
    pub fn message(&self, path: &str) -> (text: String)
        ensures
            text@ == config_error_text(*self, path@),
    {
        match self {
            ConfigError::NotAFolder => {
                let mut text = String::from_str(
                    "Test case folder does not exist or path is not a folder at ",
                );
                text.append(path);
                text.append(".");
                text
            },
            ConfigError::ConfigNotFound => {
                let mut text = String::from_str("Config file not found at ");
                text.append(path);
                text.append(".");
                text
            },
            ConfigError::ConfigMalformed => {
                let mut text = String::from_str("Config file is malformed at ");
                text.append(path);
                text.append(".");
                text
            },
            ConfigError::CannotScan => {
                let mut text = String::from_str("Failed to scan test case folder at ");
                text.append(path);
                text
            },
            ConfigError::CannotScanEntry => String::from_str(
                "Failed to scan move files for one test case.",
            ),
            ConfigError::NoMainFolder => {
                let mut text = String::from_str(
                    "Main test case folder does not exist or path is not a folder at ",
                );
                text.append(path);
                text
            },
            ConfigError::CannotScanMainFolder => String::from_str(
                "Failed to scan test cases due to FS issue.",
            ),
            ConfigError::TestCaseFailed => String::from_str("One test case loading failed."),
        }
    }
}

/// The order of byte strings: byte by byte, a prefix before what it is a prefix of.
pub open spec fn bytes_le(a: Seq<u8>, b: Seq<u8>) -> bool
    decreases a.len(),
{
    if a.len() == 0 {
        true
    } else if b.len() == 0 {
        false
    } else if a[0] != b[0] {
        a[0] < b[0]
    } else {
        bytes_le(a.drop_first(), b.drop_first())
    }
}

/// The bytes of the name of a file.
pub open spec fn name_of(f: FolderFile) -> Seq<u8> {
    vstd::utf8::encode_utf8(f.file_name@)
}

/// The entry is a Move file.
pub open spec fn is_move_file(f: FolderFile) -> bool {
    f.is_file && f.extension is Some && f.extension->0@ == MOVE_FILE_EXTENSION@
}

/// The number of files at the front of `files` whose names do not come after `name`.
pub open spec fn place_for(files: Seq<FolderFile>, name: Seq<u8>) -> int
    decreases files.len(),
{
    if files.len() == 0 {
        0
    } else if bytes_le(name_of(files.last()), name) {
        files.len() as int
    } else {
        place_for(files.drop_last(), name)
    }
}

/// The Move files among the entries, in the order of their names; files of
/// one name keep their order.
pub open spec fn sorted_move_files(entries: Seq<FolderFile>) -> Seq<FolderFile>
    decreases entries.len(),
{
    if entries.len() == 0 {
        Seq::empty()
    } else {
        let before = sorted_move_files(entries.drop_last());
        if is_move_file(entries.last()) {
            before.insert(place_for(before, name_of(entries.last())), entries.last())
        } else {
            before
        }
    }
}

/// The names of the files do not fall from one file to the next.
pub open spec fn ordered(files: Seq<FolderFile>) -> bool {
    forall|i: int, j: int|
        0 <= i <= j < files.len() ==> bytes_le(name_of(files[i]), name_of(files[j]))
}

/// Every byte string comes before itself.
pub proof fn lemma_bytes_le_reflexive(a: Seq<u8>)
    ensures
        bytes_le(a, a),
    decreases a.len(),
{
    if a.len() > 0 {
        lemma_bytes_le_reflexive(a.drop_first());
    }
}

/// Of two byte strings one comes before the other.
pub proof fn lemma_bytes_le_total(a: Seq<u8>, b: Seq<u8>)
    ensures
        bytes_le(a, b) || bytes_le(b, a),
    decreases a.len(),
{
    if a.len() > 0 && b.len() > 0 && a[0] == b[0] {
        lemma_bytes_le_total(a.drop_first(), b.drop_first());
    }
}

/// What comes before something that comes before a third comes before the third.
pub proof fn lemma_bytes_le_transitive(a: Seq<u8>, b: Seq<u8>, c: Seq<u8>)
    requires
        bytes_le(a, b),
        bytes_le(b, c),
    ensures
        bytes_le(a, c),
    decreases a.len(),
{
    if a.len() > 0 && b.len() > 0 && c.len() > 0 && a[0] == b[0] && b[0] == c[0] {
        lemma_bytes_le_transitive(a.drop_first(), b.drop_first(), c.drop_first());
    }
}

/// In sorted files the place for a name is behind every file that does not
/// come after it and before every file that does.
pub proof fn lemma_place_for(files: Seq<FolderFile>, name: Seq<u8>)
    requires
        ordered(files),
    ensures
        0 <= place_for(files, name) <= files.len(),
        forall|i: int|
            0 <= i < place_for(files, name) ==> bytes_le(name_of(#[trigger] files[i]), name),
        forall|i: int|
            place_for(files, name) <= i < files.len() ==> !bytes_le(
                name_of(#[trigger] files[i]),
                name,
            ),
    decreases files.len(),
{
    if files.len() > 0 && !bytes_le(name_of(files.last()), name) {
        let front = files.drop_last();
        assert forall|i: int, j: int| 0 <= i <= j < front.len() implies bytes_le(
            name_of(front[i]),
            name_of(front[j]),
        ) by {
            assert(bytes_le(name_of(files[i]), name_of(files[j])));
        }
        lemma_place_for(front, name);
        let p = place_for(front, name);
        assert forall|i: int| 0 <= i < p implies bytes_le(name_of(#[trigger] files[i]), name) by {
            assert(files[i] == front[i]);
        }
        assert forall|i: int| p <= i < files.len() implies !bytes_le(
            name_of(#[trigger] files[i]),
            name,
        ) by {
            if i < front.len() {
                assert(files[i] == front[i]);
            }
        }
    } else if files.len() > 0 {
        assert forall|i: int| 0 <= i < files.len() implies bytes_le(
            name_of(#[trigger] files[i]),
            name,
        ) by {
            assert(bytes_le(name_of(files[i]), name_of(files[files.len() - 1])));
            lemma_bytes_le_transitive(name_of(files[i]), name_of(files.last()), name);
        }
    }
}

/// The sorted Move files are in the order of their names, and each of them
/// is a Move file among the entries.
pub proof fn lemma_sorted_move_files(entries: Seq<FolderFile>)
    ensures
        ordered(sorted_move_files(entries)),
        forall|i: int|
            0 <= i < sorted_move_files(entries).len() ==> is_move_file(
                #[trigger] sorted_move_files(entries)[i],
            ) && entries.contains(sorted_move_files(entries)[i]),
        forall|p: int|
            0 <= p < entries.len() && is_move_file(#[trigger] entries[p]) ==> sorted_move_files(
                entries,
            ).contains(entries[p]),
    decreases entries.len(),
{
    if entries.len() > 0 {
        let front = entries.drop_last();
        let last = entries.last();
        lemma_sorted_move_files(front);
        let before = sorted_move_files(front);
        let after = sorted_move_files(entries);
        if is_move_file(last) {
            let p = place_for(before, name_of(last));
            lemma_place_for(before, name_of(last));
            assert forall|i: int, j: int| 0 <= i <= j < after.len() implies bytes_le(
                name_of(after[i]),
                name_of(after[j]),
            ) by {
                let bi = if i < p {
                    i
                } else {
                    i - 1
                };
                let bj = if j < p {
                    j
                } else {
                    j - 1
                };
                if i == j {
                    lemma_bytes_le_reflexive(name_of(after[i]));
                } else if i != p && j != p {
                    assert(bytes_le(name_of(before[bi]), name_of(before[bj])));
                } else if i == p {
                    assert(!bytes_le(name_of(before[bj]), name_of(last)));
                    lemma_bytes_le_total(name_of(before[bj]), name_of(last));
                } else {
                    assert(bytes_le(name_of(before[bi]), name_of(last)));
                }
            }
            assert forall|i: int| 0 <= i < after.len() implies is_move_file(#[trigger] after[i])
                && entries.contains(after[i]) by {
                if i == p {
                    assert(entries[entries.len() - 1] == after[i]);
                } else {
                    let bi = if i < p {
                        i
                    } else {
                        i - 1
                    };
                    assert(after[i] == before[bi]);
                    let q = choose|q: int| 0 <= q < front.len() && front[q] == before[bi];
                    assert(entries[q] == after[i]);
                }
            }
            assert forall|q: int|
                0 <= q < entries.len() && is_move_file(#[trigger] entries[q]) implies after.contains(
                entries[q],
            ) by {
                if q == entries.len() - 1 {
                    assert(after[p] == entries[q]);
                } else {
                    assert(front[q] == entries[q]);
                    let bi = choose|bi: int| 0 <= bi < before.len() && before[bi] == front[q];
                    let ai = if bi < p {
                        bi
                    } else {
                        bi + 1
                    };
                    assert(after[ai] == entries[q]);
                }
            }
        } else {
            assert forall|i: int| 0 <= i < after.len() implies is_move_file(#[trigger] after[i])
                && entries.contains(after[i]) by {
                let q = choose|q: int| 0 <= q < front.len() && front[q] == before[i];
                assert(entries[q] == after[i]);
            }
            assert forall|q: int|
                0 <= q < entries.len() && is_move_file(#[trigger] entries[q]) implies after.contains(
                entries[q],
            ) by {
                assert(front[q] == entries[q]);
            }
        }
    }
}

/// Whether `a` comes before `b` or is the same.
pub fn bytes_before(a: &[u8], b: &[u8]) -> (result: bool)
    ensures
        result == bytes_le(a@, b@),
{
    let mut i: usize = 0;
    assert(a@.skip(0) == a@ && b@.skip(0) == b@);
    while i < a.len() && i < b.len()
        invariant
            i <= a.len(),
            i <= b.len(),
            bytes_le(a@, b@) == bytes_le(a@.skip(i as int), b@.skip(i as int)),
        decreases a.len() - i,
    {
        proof {
            assert(a@.skip(i as int).drop_first() == a@.skip(i + 1));
            assert(b@.skip(i as int).drop_first() == b@.skip(i + 1));
            assert(a@.skip(i as int)[0] == a@[i as int]);
            assert(b@.skip(i as int)[0] == b@[i as int]);
        }
        if a[i] != b[i] {
            return a[i] < b[i];
        }
        i += 1;
    }
    assert(a@.skip(i as int).len() == a.len() - i);
    assert(b@.skip(i as int).len() == b.len() - i);
    i == a.len()
}

/// A copy of a file entry.
fn copy_file(f: &FolderFile) -> (copy: FolderFile)
    ensures
        copy == *f,
{
    FolderFile {
        path: f.path.clone(),
        file_name: f.file_name.clone(),
        is_file: f.is_file,
        extension: match &f.extension {
            Some(e) => Some(e.clone()),
            None => None,
        },
    }
}

/// Whether the entry is a Move file.
pub fn move_file(f: &FolderFile) -> (result: bool)
    ensures
        result == is_move_file(*f),
{
    f.is_file && match &f.extension {
        Some(e) => *e == String::from_str(MOVE_FILE_EXTENSION),
        None => false,
    }
}

impl<T> TestCase<T> {
    pub closed spec fn folder(&self) -> String {
        self.test_case_folder
    }

    pub closed spec fn config(&self) -> TestCaseConfig<T> {
        self.test_case_config
    }

    pub closed spec fn files(&self) -> Seq<FolderFile> {
        self.move_files@
    }

    /// The folder of the test case.
    pub fn test_case_folder(&self) -> (folder: &String)
        ensures
            *folder == self.folder(),
    {
        &self.test_case_folder
    }

    /// The configuration of the test case.
    pub fn test_case_config(&self) -> (config: &TestCaseConfig<T>)
        ensures
            *config == self.config(),
    {
        &self.test_case_config
    }

    /// The Move files of the test case, in the order in which they are run.
    pub fn move_files(&self) -> (files: &Vec<FolderFile>)
        ensures
            files@ == self.files(),
    {
        &self.move_files
    }

    /// The test case of a folder with the given configuration: its Move
    /// files are the files among the entries whose extension is that of Move
    /// files, in the order of their names.
    pub fn load(
        test_case_folder: String,
        test_case_config: TestCaseConfig<T>,
        entries: &Vec<FolderFile>,
    ) -> (test_case: TestCase<T>)
        ensures
            test_case.folder() == test_case_folder,
            test_case.config() == test_case_config,
            test_case.files() == sorted_move_files(entries@),
    {
        let mut move_files: Vec<FolderFile> = Vec::new();
        let mut p: usize = 0;
        while p < entries.len()
            invariant
                p <= entries.len(),
                move_files@ == sorted_move_files(entries@.take(p as int)),
            decreases entries.len() - p,
        {
            proof {
                assert(entries@.take(p + 1).drop_last() == entries@.take(p as int));
            }
            if move_file(&entries[p]) {
                let name = entries[p].file_name.as_str().as_bytes();
                let mut q: usize = move_files.len();
                assert(move_files@.take(q as int) == move_files@);
                while q > 0 && !bytes_before(
                    move_files[q - 1].file_name.as_str().as_bytes(),
                    name,
                )
                    invariant
                        q <= move_files.len(),
                        name@ == name_of(entries@[p as int]),
                        place_for(move_files@, name@) == place_for(
                            move_files@.take(q as int),
                            name@,
                        ),
                    decreases q,
                {
                    assert(move_files@.take(q as int).drop_last() == move_files@.take(q - 1));
                    assert(move_files@.take(q as int).last() == move_files@[q - 1]);
                    q -= 1;
                }
                proof {
                    if q > 0 {
                        assert(move_files@.take(q as int).last() == move_files@[q - 1]);
                    }
                }
                move_files.insert(q, copy_file(&entries[p]));
            }
            p += 1;
        }
        assert(entries@.take(entries@.len() as int) == entries@);
        TestCase { test_case_folder, test_case_config, move_files }
    }
}

} // verus!
