//! The tool that sets up a profile: which endpoints it configures, which key
//! it takes, and whether it creates the account.

use vstd::prelude::*;
use vstd::string::*;

verus! {

/// The endpoint of the node that is used where none is given.
pub const DEFAULT_REST_URL: &'static str = "https://fullnode.devnet.aptoslabs.com";

/// The endpoint of the faucet that is used where none is given.
pub const DEFAULT_FAUCET_URL: &'static str = "https://faucet.devnet.aptoslabs.com";

/// The number of coins with which a new account is funded.
pub const NUM_DEFAULT_COINS: u64 = 10000;

/// The profile that a command works on.
#[derive(Debug)]
pub struct ProfileOptions {
    pub profile: String,
}

/// The tool that initializes the current directory for a profile.
#[derive(Debug)]
pub struct InitTool {
    profile: ProfileOptions,
}

/// What is configured for a profile.
#[derive(Debug)]
pub struct ProfileConfig<K, P, A> {
    pub rest_url: Option<String>,
    pub faucet_url: Option<String>,
    pub private_key: Option<K>,
    pub public_key: Option<P>,
    pub account: Option<A>,
}

/// A profile under its name.
#[derive(Debug)]
pub struct NamedProfile<C> {
    pub name: String,
    pub config: C,
}

/// The configuration of the tool: the profiles by their names. A
/// configuration that was never written has no table of profiles at all.
pub struct CliConfig<C> {
    profiles: Option<Vec<NamedProfile<C>>>,
}

/// No two profiles have one name.
pub open spec fn names_differ<C>(entries: Seq<NamedProfile<C>>) -> bool {
    forall|i: int, j: int| 0 <= i < j < entries.len() ==> entries[i].name@ != entries[j].name@
}

/// There is a profile of the name.
pub open spec fn names<C>(entries: Seq<NamedProfile<C>>, name: Seq<char>) -> bool {
    exists|i: int| 0 <= i < entries.len() && (#[trigger] entries[i]).name@ == name
}

/// The place of the profile of the name.
pub open spec fn place_of<C>(entries: Seq<NamedProfile<C>>, name: Seq<char>) -> int {
    choose|i: int| 0 <= i < entries.len() && (#[trigger] entries[i]).name@ == name
}

/// The profile of the name, if there is one.
pub open spec fn lookup<C>(entries: Seq<NamedProfile<C>>, name: Seq<char>) -> Option<C> {
    if names(entries, name) {
        Some(entries[place_of(entries, name)].config)
    } else {
        None
    }
}

/// Where no two profiles have one name, a profile is found at its place.
proof fn lemma_place_of<C>(entries: Seq<NamedProfile<C>>, i: int)
    requires
        names_differ(entries),
        0 <= i < entries.len(),
    ensures
        names(entries, entries[i].name@),
        place_of(entries, entries[i].name@) == i,
        lookup(entries, entries[i].name@) == Some(entries[i].config),
{
    let p = place_of(entries, entries[i].name@);
    assert(entries[p].name@ == entries[i].name@);
}

impl<K, P, A> ProfileConfig<K, P, A> {
    /// The configuration of a profile for which nothing is configured.
    pub fn empty() -> (config: Self)
        ensures
            config.rest_url is None,
            config.faucet_url is None,
            config.private_key is None,
            config.public_key is None,
            config.account is None,
    {
        ProfileConfig {
            rest_url: None,
            faucet_url: None,
            private_key: None,
            public_key: None,
            account: None,
        }
    }

    /// The configuration with the endpoints, the keys and the account that
    /// the tool has settled on, in place of what was configured before.
    pub fn configure(
        self,
        rest_url: String,
        faucet_url: String,
        private_key: K,
        public_key: P,
        account: A,
    ) -> (config: Self)
        ensures
            config.rest_url == Some(rest_url),
            config.faucet_url == Some(faucet_url),
            config.private_key == Some(private_key),
            config.public_key == Some(public_key),
            config.account == Some(account),
    {
        ProfileConfig {
            rest_url: Some(rest_url),
            faucet_url: Some(faucet_url),
            private_key: Some(private_key),
            public_key: Some(public_key),
            account: Some(account),
        }
    }
}

impl<C> CliConfig<C> {
    /// No two profiles have one name.
    pub closed spec fn wf(&self) -> bool {
        self.profiles matches Some(entries) ==> names_differ(entries@)
    }

    /// The configuration has a table of profiles.
    pub closed spec fn has_profiles(&self) -> bool {
        self.profiles is Some
    }

    /// The profile of the name, if there is one.
    pub closed spec fn profile(&self, name: Seq<char>) -> Option<C> {
        match self.profiles {
            Some(entries) => lookup(entries@, name),
            None => None,
        }
    }

    /// Every profile but that of the name is in `after` what it is here.
    pub open spec fn differs_only_at(&self, after: &Self, name: Seq<char>) -> bool {
        forall|other: Seq<char>|
            other != name ==> #[trigger] after.profile(other) == self.profile(other)
    }

    /// The configuration that was never written: it has no table of profiles.
    pub fn new() -> (config: Self)
        ensures
            config.wf(),
            !config.has_profiles(),
            forall|name: Seq<char>| #[trigger] config.profile(name) is None,
    {
        CliConfig { profiles: None }
    }

    /// The place of the profile of the name among `entries`, if there is one.
    fn find(entries: &Vec<NamedProfile<C>>, name: &String) -> (place: Option<usize>)
        requires
            names_differ(entries@),
        ensures
            match place {
                Some(i) => i < entries.len() && entries[i as int].name@ == name@ && names(
                    entries@,
                    name@,
                ) && place_of(entries@, name@) == i,
                None => !names(entries@, name@),
            },
    {
        let mut i: usize = 0;
        while i < entries.len()
            invariant
                i <= entries.len(),
                names_differ(entries@),
                forall|k: int| 0 <= k < i ==> (#[trigger] entries[k]).name@ != name@,
            decreases entries.len() - i,
        {
            if entries[i].name == *name {
                proof {
                    lemma_place_of(entries@, i as int);
                }
                return Some(i);
            }
            i += 1;
        }
        None
    }

    /// Takes the profile of the name out of the configuration and gives it
    /// back, or `None` where there is none. The other profiles stay.
    pub fn remove_profile(&mut self, name: &str) -> (removed: Option<C>)
        requires
            old(self).wf(),
        ensures
            final(self).wf(),
            removed == old(self).profile(name@),
            final(self).profile(name@) is None,
            final(self).has_profiles() == old(self).has_profiles(),
            old(self).differs_only_at(final(self), name@),
    {
        let wanted = String::from_str(name);
        match &mut self.profiles {
            None => None,
            Some(entries) => {
                let ghost before = entries@;
                match Self::find(entries, &wanted) {
                    None => None,
                    Some(i) => {
                        let taken = entries.remove(i);
                        proof {
                            let after = entries@;
                            assert forall|a: int, b: int| 0 <= a < b < after.len() implies after[a].name@
                                != after[b].name@ by {
                                let a0 = if a < i {
                                    a
                                } else {
                                    a + 1
                                };
                                let b0 = if b < i {
                                    b
                                } else {
                                    b + 1
                                };
                                assert(before[a0].name@ != before[b0].name@);
                            }
                            assert(!names(after, name@)) by {
                                if names(after, name@) {
                                    let q = place_of(after, name@);
                                    let q0 = if q < i {
                                        q
                                    } else {
                                        q + 1
                                    };
                                    assert(before[q0].name@ == before[i as int].name@);
                                }
                            }
                            assert forall|other: Seq<char>| other != name@ implies #[trigger] lookup(
                                after,
                                other,
                            ) == lookup(before, other) by {
                                if names(before, other) {
                                    let q = place_of(before, other);
                                    let q1 = if q < i {
                                        q
                                    } else {
                                        q - 1
                                    };
                                    assert(after[q1] == before[q]);
                                    lemma_place_of(after, q1);
                                    lemma_place_of(before, q);
                                }
                                if names(after, other) {
                                    let q = place_of(after, other);
                                    let q0 = if q < i {
                                        q
                                    } else {
                                        q + 1
                                    };
                                    assert(before[q0] == after[q]);
                                    lemma_place_of(before, q0);
                                    lemma_place_of(after, q);
                                }
                            }
                        }
                        Some(taken.config)
                    },
                }
            },
        }
    }

    /// Puts a profile into the configuration under its name, in place of
    /// the profile of that name where there is one. A configuration without
    /// a table of profiles gets one. The other profiles stay.
    pub fn insert_profile(&mut self, name: String, config: C)
        requires
            old(self).wf(),
        ensures
            final(self).wf(),
            final(self).has_profiles(),
            final(self).profile(name@) == Some(config),
            old(self).differs_only_at(final(self), name@),
    {
        if self.profiles.is_none() {
            self.profiles = Some(Vec::new());
            assert forall|other: Seq<char>| #[trigger] self.profile(other) is None by {
                assert(!names(self.profiles->0@, other));
            }
        }
        match &mut self.profiles {
            None => {},
            Some(entries) => {
                let ghost before = entries@;
                let place = Self::find(entries, &name);
                let entry = NamedProfile { name, config };
                match place {
                    Some(i) => {
                        entries[i] = entry;
                    },
                    None => {
                        entries.push(entry);
                    },
                }
                proof {
                    let after = entries@;
                    let at = match place {
                        Some(i) => i as int,
                        None => before.len() as int,
                    };
                    assert(after[at] == entry);
                    assert forall|a: int, b: int| 0 <= a < b < after.len() implies after[a].name@
                        != after[b].name@ by {
                        if a != at && b != at {
                            assert(before[a].name@ != before[b].name@);
                        } else if a == at {
                            if place is Some {
                                assert(before[a].name@ != before[b].name@);
                            }
                        } else {
                            if place is Some {
                                assert(before[a].name@ != before[b].name@);
                            } else {
                                assert(before[a].name@ != entry.name@);
                            }
                        }
                    }
                    lemma_place_of(after, at);
                    assert forall|other: Seq<char>| other != entry.name@ implies #[trigger] lookup(
                        after,
                        other,
                    ) == lookup(before, other) by {
                        if names(before, other) {
                            let q = place_of(before, other);
                            assert(after[q] == before[q]);
                            lemma_place_of(after, q);
                            lemma_place_of(before, q);
                        }
                        if names(after, other) {
                            let q = place_of(after, other);
                            assert(before[q] == after[q]);
                            lemma_place_of(before, q);
                            lemma_place_of(after, q);
                        }
                    }
                }
            },
        }
    }
}

/// The endpoints that the tool configures.
#[derive(Clone, Copy, Debug, PartialEq, Eq, Structural)]
pub enum EndpointKind {
    Rest,
    Faucet,
}

/// What went wrong in the tool.
#[derive(Debug, PartialEq, Eq)]
pub enum CliError {
    /// Something that should not happen, with its description.
    UnexpectedError(String),
    /// An input could not be read as what it is named to be.
    UnableToParse(&'static str, String),
}

/// Where the private key of the profile comes from.
#[derive(Clone, Copy, Debug, PartialEq, Eq, Structural)]
pub enum KeyChoice {
    /// The key that the profile already has is kept.
    KeepExisting,
    /// A new key is generated.
    Generate,
    /// The input is read as a key.
    Parse,
}

/// The private key of the profile, or where it comes from.
#[derive(Debug, PartialEq, Eq)]
pub enum KeyDecision<K> {
    /// This key, which the profile already has, is kept.
    Keep(K),
    /// A new key is generated.
    Generate,
    /// The input is read as a key.
    Parse,
}

/// What is done about the account of the profile.
#[derive(Clone, Copy, Debug, PartialEq, Eq, Structural)]
pub enum AccountAction {
    /// The account exists: nothing is done.
    Keep,
    /// The account is created and funded by the faucet with so many coins.
    CreateAndFund(u64),
}

/// The character is white space: one of the characters that the Unicode
/// standard gives the property of that name.
pub open spec fn is_blank(c: char) -> bool {
    let u = c as u32;
    ||| 0x09 <= u <= 0x0d
    ||| u == 0x20
    ||| u == 0x85
    ||| u == 0xa0
    ||| u == 0x1680
    ||| 0x2000 <= u <= 0x200a
    ||| u == 0x2028
    ||| u == 0x2029
    ||| u == 0x202f
    ||| u == 0x205f
    ||| u == 0x3000
}

/// A text without the white space at its start.
pub open spec fn without_leading_blanks(text: Seq<char>) -> Seq<char>
    decreases text.len(),
{
    if text.len() > 0 && is_blank(text[0]) {
        without_leading_blanks(text.drop_first())
    } else {
        text
    }
}

/// A text without the white space at its end.
pub open spec fn without_trailing_blanks(text: Seq<char>) -> Seq<char>
    decreases text.len(),
{
    if text.len() > 0 && is_blank(text.last()) {
        without_trailing_blanks(text.drop_last())
    } else {
        text
    }
}

/// A text without the white space at its start and at its end.
pub open spec fn trimmed(text: Seq<char>) -> Seq<char> {
    without_trailing_blanks(without_leading_blanks(text))
}

/// Whether the character is white space.
fn blank(c: char) -> (result: bool)
    ensures
        result == is_blank(c),
{
    let u = c as u32;
    (0x09 <= u && u <= 0x0d) || u == 0x20 || u == 0x85 || u == 0xa0 || u == 0x1680 || (0x2000 <= u
        && u <= 0x200a) || u == 0x2028 || u == 0x2029 || u == 0x202f || u == 0x205f || u == 0x3000
}

/// The line without the white space at its start and at its end.
pub fn trim(line: &str) -> (text: &str)
    ensures
        text@ == trimmed(line@),
{
    let n = line.unicode_len();
    let mut from: usize = 0;
    assert(line@.skip(0) == line@);
    while from < n && blank(line.get_char(from))
        invariant
            from <= n == line@.len(),
            without_leading_blanks(line@) == without_leading_blanks(line@.skip(from as int)),
        decreases n - from,
    {
        assert(line@.skip(from as int).drop_first() == line@.skip(from + 1));
        from += 1;
    }
    let ghost body = line@.skip(from as int);
    assert(without_leading_blanks(line@) == body);
    let mut to: usize = n;
    assert(body.take(n - from) == body);
    while to > from && blank(line.get_char(to - 1))
        invariant
            from <= to <= n == line@.len(),
            body == line@.skip(from as int),
            without_trailing_blanks(body) == without_trailing_blanks(body.take(to - from)),
        decreases to,
    {
        assert(body.take(to - from).last() == line@[to - 1]);
        assert(body.take(to - from).drop_last() == body.take(to - from - 1));
        to -= 1;
    }
    proof {
        if to > from {
            assert(body.take(to - from).last() == line@[to - 1]);
        }
        assert(body.take(to - from) == line@.subrange(from as int, to as int));
    }
    line.substring_char(from, to)
}

/// What the URL parser makes of a text: the URL in its normal form, or the
/// description of what is wrong with the text.
pub uninterp spec fn parsed_url(input: Seq<char>) -> Result<Seq<char>, Seq<char>>;

/// Parses a URL.
///
/// The body calls `reqwest::Url::parse` on `input` and turns the URL, or the
/// error, into its text with `to_string`. The contract names the outcome
/// [`parsed_url`] of the input and claims nothing else.
#[verifier::external_body]
fn parse_url(input: &str) -> (result: Result<String, String>)
    ensures
        match result {
            Ok(url) => parsed_url(input@) == Ok::<Seq<char>, Seq<char>>(url@),
            Err(description) => parsed_url(input@) == Err::<Seq<char>, Seq<char>>(description@),
        },
{
    match reqwest::Url::parse(input) {
        Ok(url) => Ok(url.to_string()),
        Err(err) => Err(err.to_string()),
    }
}

/// The endpoint that is used where none is given.
pub open spec fn default_url(kind: EndpointKind) -> Seq<char> {
    match kind {
        EndpointKind::Rest => DEFAULT_REST_URL@,
        EndpointKind::Faucet => DEFAULT_FAUCET_URL@,
    }
}

/// The start of the description of a default endpoint that cannot be parsed.
pub open spec fn default_failure_prefix(kind: EndpointKind) -> Seq<char> {
    match kind {
        EndpointKind::Rest => "Failed to parse default rest URL "@,
        EndpointKind::Faucet => "Failed to parse default faucet URL "@,
    }
}

/// The name under which an endpoint that cannot be parsed is reported.
pub open spec fn endpoint_name(kind: EndpointKind) -> Seq<char> {
    match kind {
        EndpointKind::Rest => "Rest Endpoint"@,
        EndpointKind::Faucet => "Faucet Endpoint"@,
    }
}

/// The endpoint, given what the parser made of the text that was parsed:
/// the default where the input was empty, the input otherwise.
pub open spec fn endpoint_outcome(
    kind: EndpointKind,
    input_is_empty: bool,
    parsed: Result<Seq<char>, Seq<char>>,
    result: Result<String, CliError>,
) -> bool {
    match parsed {
        Ok(url) => result matches Ok(text) && text@ == url,
        Err(description) => if input_is_empty {
            result matches Err(CliError::UnexpectedError(text)) && text@ == default_failure_prefix(
                kind,
            ) + description
        } else {
            result matches Err(CliError::UnableToParse(name, text)) && name@ == endpoint_name(kind)
                && text@ == description
        },
    }
}

/// The endpoint, given what the parser made of the text that was parsed.
///
/// A URL is taken as it is. A failure of the default is an unexpected error;
/// a failure of the input is reported under the name of the endpoint.
pub fn endpoint_from(kind: EndpointKind, input_is_empty: bool, parsed: Result<String, String>) -> (result:
    Result<String, CliError>)
    ensures
        endpoint_outcome(
            kind,
            input_is_empty,
            match parsed {
                Ok(url) => Ok(url@),
                Err(description) => Err(description@),
            },
            result,
        ),
{
    match parsed {
        Ok(url) => Ok(url),
        Err(description) => {
            if input_is_empty {
                let prefix = match kind {
                    EndpointKind::Rest => "Failed to parse default rest URL ",
                    EndpointKind::Faucet => "Failed to parse default faucet URL ",
                };
                let text = String::from_str(prefix).concat(description.as_str());
                Err(CliError::UnexpectedError(text))
            } else {
                let name = match kind {
                    EndpointKind::Rest => "Rest Endpoint",
                    EndpointKind::Faucet => "Faucet Endpoint",
                };
                Err(CliError::UnableToParse(name, description))
            }
        },
    }
}

/// The private key, given what the reading of the input as a key gave: the
/// key, or the report that the input is no key of the kind that the tool
/// takes, with what is wrong with it.
pub fn key_from<K>(parsed: Result<K, String>) -> (result: Result<K, CliError>)
    ensures
        match parsed {
            Ok(key) => result matches Ok(k) && k == key,
            Err(description) => result matches Err(CliError::UnableToParse(name, text)) && name@
                == "Ed25519PrivateKey"@ && text == description,
        },
{
    match parsed {
        Ok(key) => Ok(key),
        Err(description) => Err(CliError::UnableToParse("Ed25519PrivateKey", description)),
    }
}

/// The private key for a line that the user typed, where `existing` is the
/// key that the profile has.
pub open spec fn key_decision_of<K>(line: Seq<char>, existing: Option<K>) -> KeyDecision<K> {
    if trimmed(line).len() != 0 {
        KeyDecision::Parse
    } else {
        match existing {
            Some(key) => KeyDecision::Keep(key),
            None => KeyDecision::Generate,
        }
    }
}

/// A line of nothing but white space keeps the key that the profile has; a
/// key is generated only where the profile has none.
pub proof fn lemma_blank_line_keeps_key<K>(line: Seq<char>, existing: Option<K>)
    ensures
        trimmed(line).len() == 0 && existing is Some ==> key_decision_of(line, existing)
            == KeyDecision::Keep(existing->0),
        key_decision_of(line, existing) is Generate ==> existing is None && trimmed(line).len()
            == 0,
{
}

/// A run of the tool for one profile leaves every other profile as it was:
/// taking the profile out and putting its new configuration in changes
/// nothing under another name.
pub proof fn lemma_run_touches_one_profile<C>(
    before: CliConfig<C>,
    selected: CliConfig<C>,
    saved: CliConfig<C>,
    name: Seq<char>,
    other: Seq<char>,
)
    requires
        before.differs_only_at(&selected, name),
        selected.differs_only_at(&saved, name),
        other != name,
    ensures
        saved.profile(other) == before.profile(other),
{
    assert(selected.profile(other) == before.profile(other));
    assert(saved.profile(other) == selected.profile(other));
}

/// The steps of a run of the tool, in their order.
#[derive(Clone, Copy, Debug, PartialEq, Eq, Structural)]
pub enum InitStep {
    /// Load the stored configuration and take the profile out of it.
    LoadConfig,
    /// Ask whether the configuration of the profile may be overwritten.
    Confirm,
    /// Read the line for the endpoint of the node and settle the endpoint.
    RestEndpoint,
    /// Read the line for the endpoint of the faucet and settle the endpoint.
    FaucetEndpoint,
    /// Read the line for the private key and settle the key.
    PrivateKey,
    /// Look the account up on the node.
    LookupAccount,
    /// Have the faucet create and fund the account.
    CreateAccount,
    /// Put the profile into the configuration and store the configuration.
    Save,
}

/// How a run goes on after a step.
#[derive(Clone, Copy, Debug, PartialEq, Eq, Structural)]
pub enum InitNext {
    /// With this step.
    Go(InitStep),
    /// The run ends well, and nothing is stored.
    Exit,
    /// The run ends well; the configuration is stored.
    Finished,
    /// The run ends with the error of the step, and nothing is stored.
    Fail,
}

/// How a run goes on after `step`, where `good` says that the step
/// succeeded: for the question, that the user agreed; for the lookup, that
/// the account was found.
pub open spec fn after_init_step(step: InitStep, good: bool) -> InitNext {
    match step {
        InitStep::LoadConfig => if good {
            InitNext::Go(InitStep::Confirm)
        } else {
            InitNext::Fail
        },
        InitStep::Confirm => if good {
            InitNext::Go(InitStep::RestEndpoint)
        } else {
            InitNext::Exit
        },
        InitStep::RestEndpoint => if good {
            InitNext::Go(InitStep::FaucetEndpoint)
        } else {
            InitNext::Fail
        },
        InitStep::FaucetEndpoint => if good {
            InitNext::Go(InitStep::PrivateKey)
        } else {
            InitNext::Fail
        },
        InitStep::PrivateKey => if good {
            InitNext::Go(InitStep::LookupAccount)
        } else {
            InitNext::Fail
        },
        InitStep::LookupAccount => if good {
            InitNext::Go(InitStep::Save)
        } else {
            InitNext::Go(InitStep::CreateAccount)
        },
        InitStep::CreateAccount => if good {
            InitNext::Go(InitStep::Save)
        } else {
            InitNext::Fail
        },
        InitStep::Save => if good {
            InitNext::Finished
        } else {
            InitNext::Fail
        },
    }
}

/// The configuration is stored only once the account is there: the step
/// that stores it follows a lookup that found the account or a creation
/// that succeeded, and nothing else. The faucet is asked only after a
/// lookup that did not find the account.
pub proof fn lemma_save_follows_account(step: InitStep, good: bool)
    ensures
        after_init_step(step, good) == InitNext::Go(InitStep::Save) <==> good && (step
            == InitStep::LookupAccount || step == InitStep::CreateAccount),
        after_init_step(step, good) == InitNext::Go(InitStep::CreateAccount) <==> !good && step
            == InitStep::LookupAccount,
        after_init_step(step, good) == InitNext::Finished <==> good && step == InitStep::Save,
{
}

impl InitStep {
    /// The first step of a run.
    pub fn first() -> (step: InitStep)
        ensures
            step == InitStep::LoadConfig,
    {
        InitStep::LoadConfig
    }

    /// How the run goes on after this step: see [`after_init_step`].
    pub fn after(self, good: bool) -> (next: InitNext)
        ensures
            next == after_init_step(self, good),
    {
        match self {
            InitStep::LoadConfig => if good {
                InitNext::Go(InitStep::Confirm)
            } else {
                InitNext::Fail
            },
            InitStep::Confirm => if good {
                InitNext::Go(InitStep::RestEndpoint)
            } else {
                InitNext::Exit
            },
            InitStep::RestEndpoint => if good {
                InitNext::Go(InitStep::FaucetEndpoint)
            } else {
                InitNext::Fail
            },
            InitStep::FaucetEndpoint => if good {
                InitNext::Go(InitStep::PrivateKey)
            } else {
                InitNext::Fail
            },
            InitStep::PrivateKey => if good {
                InitNext::Go(InitStep::LookupAccount)
            } else {
                InitNext::Fail
            },
            InitStep::LookupAccount => if good {
                InitNext::Go(InitStep::Save)
            } else {
                InitNext::Go(InitStep::CreateAccount)
            },
            InitStep::CreateAccount => if good {
                InitNext::Go(InitStep::Save)
            } else {
                InitNext::Fail
            },
            InitStep::Save => if good {
                InitNext::Finished
            } else {
                InitNext::Fail
            },
        }
    }
}

impl InitTool {
    /// The profile that the tool sets up.
    pub closed spec fn profile(&self) -> ProfileOptions {
        self.profile
    }

    /// The tool for a profile.
    pub fn new(profile: ProfileOptions) -> (tool: InitTool)
        ensures
            tool.profile() == profile,
    {
        InitTool { profile }
    }

    /// The name of the profile that the tool sets up.
    pub fn profile_name(&self) -> (name: &String)
        ensures
            *name == self.profile().profile,
    {
        &self.profile.profile
    }

    /// The endpoint that the profile gets for the line that the user typed:
    /// the default of the kind where the line holds nothing but white
    /// space, and otherwise what the line holds between the white space at
    /// its ends, in either case as the URL parser gives it back.
    pub fn endpoint(&self, kind: EndpointKind, line: &str) -> (result: Result<String, CliError>)
        ensures
            endpoint_outcome(
                kind,
                trimmed(line@).len() == 0,
                parsed_url(
                    if trimmed(line@).len() == 0 {
                        default_url(kind)
                    } else {
                        trimmed(line@)
                    },
                ),
                result,
            ),
    {
        let input = trim(line);
        if input.is_empty() {
            let default = match kind {
                EndpointKind::Rest => DEFAULT_REST_URL,
                EndpointKind::Faucet => DEFAULT_FAUCET_URL,
            };
            endpoint_from(kind, true, parse_url(default))
        } else {
            endpoint_from(kind, false, parse_url(input))
        }
    }

    /// Whether the setup goes on once the user was asked whether the
    /// configuration of the profile may be overwritten: it goes on where the
    /// user agreed, and ends without a change where the user did not.
    pub fn proceeds(&self, confirmed: bool) -> (goes_on: bool)
        ensures
            goes_on == confirmed,
    {
        confirmed
    }

    /// The configuration that the tool starts from: that of its profile,
    /// which is taken out of `config`, or `fallback` where `config` has none
    /// for the profile.
    pub fn select_profile<C>(&self, config: &mut CliConfig<C>, fallback: C) -> (selected: C)
        requires
            old(config).wf(),
        ensures
            final(config).wf(),
            selected == (match old(config).profile(self.profile().profile@) {
                Some(stored) => stored,
                None => fallback,
            }),
            final(config).profile(self.profile().profile@) is None,
            final(config).has_profiles() == old(config).has_profiles(),
            old(config).differs_only_at(final(config), self.profile().profile@),
    {
        match config.remove_profile(self.profile.profile.as_str()) {
            Some(stored) => stored,
            None => fallback,
        }
    }

    /// Puts the configuration of the profile into `config`, under the name
    /// of the profile, in place of what `config` held for it.
    pub fn save_profile<C>(&self, config: &mut CliConfig<C>, configured: C)
        requires
            old(config).wf(),
        ensures
            final(config).wf(),
            final(config).has_profiles(),
            final(config).profile(self.profile().profile@) == Some(configured),
            old(config).differs_only_at(final(config), self.profile().profile@),
    {
        config.insert_profile(self.profile.profile.clone(), configured);
    }

    /// Where the private key comes from for the line that the user typed:
    /// where the line holds nothing but white space, the key of the profile
    /// is kept, or one is generated where the profile has none; otherwise
    /// what the line holds between the white space at its ends is read as a
    /// key.
    pub fn key_choice(&self, line: &str, has_key: bool) -> (choice: KeyChoice)
        ensures
            choice == (if trimmed(line@).len() != 0 {
                KeyChoice::Parse
            } else if has_key {
                KeyChoice::KeepExisting
            } else {
                KeyChoice::Generate
            }),
    {
        let input = trim(line);
        if !input.is_empty() {
            KeyChoice::Parse
        } else if has_key {
            KeyChoice::KeepExisting
        } else {
            KeyChoice::Generate
        }
    }

    /// The private key for the line that the user typed, where `existing`
    /// is the key that the profile has: as [`InitTool::key_choice`] says,
    /// and where the key is kept, it is the key that the profile has.
    pub fn key_decision<K>(&self, line: &str, existing: Option<K>) -> (decision: KeyDecision<K>)
        ensures
            decision == key_decision_of(line@, existing),
    {
        match (self.key_choice(line, existing.is_some()), existing) {
            (KeyChoice::KeepExisting, Some(key)) => KeyDecision::Keep(key),
            (KeyChoice::Parse, _) => KeyDecision::Parse,
            (_, _) => KeyDecision::Generate,
        }
    }

    /// What is done about the account: it is created, and funded with
    /// [`NUM_DEFAULT_COINS`] coins, where it could not be found.
    pub fn account_action(&self, account_found: bool) -> (action: AccountAction)
        ensures
            action == (if account_found {
                AccountAction::Keep
            } else {
                AccountAction::CreateAndFund(NUM_DEFAULT_COINS)
            }),
    {
        if account_found {
            AccountAction::Keep
        } else {
            AccountAction::CreateAndFund(NUM_DEFAULT_COINS)
        }
    }
}

} // verus!
