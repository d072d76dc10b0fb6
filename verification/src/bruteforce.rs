//! The search: candidates of a source are handed to a pool of workers,
//! each is tested against the token's signature, and the pool stops
//! handing out candidates once one has verified.

use crate::cli::{out_of_range, Args, ConfigError};
use crate::hw::HardwareConfig;
use crate::crypto::Algorithm;
use crate::enumerator::{
    candidate, combination_count, combination_from_chars, combinations, count_total,
    lemma_total_covers, total_combinations,
};
use crate::jwt::{
    algorithm_named, parse_algorithm, parse_token, segments, signature_verifies, verify_with,
    well_formed, JwtError, JwtParts,
};
use crate::text::{chars_of, uppercased};
use crate::validator::{token_verdict, JwtValidator, ValidationError, Verdict};
use rayon::iter::{IntoParallelIterator, ParallelIterator};
use vstd::arithmetic::power::lemma0_pow;
use vstd::prelude::*;
use vstd::utf8::encode_utf8;

verus! {

/// What a search tells of each candidate. Nothing that an observer does
/// bears on the result of the search.
pub trait AttemptObserver {
    /// A candidate was tested, or is about to be.
    fn tried(&self, candidate: &str);

    /// A candidate verified.
    fn found(&self, candidate: &str);

    /// The search of a unit begins: a length, or a dictionary by its place
    /// in the list.
    fn unit_started(&self, unit: usize);

    /// A unit was searched to its end and held no secret.
    fn unit_exhausted(&self, unit: usize);
}

/// The observer that takes no note of anything.
pub struct Silent;

impl AttemptObserver for Silent {
    fn tried(&self, candidate: &str) {
    }

    fn found(&self, candidate: &str) {
    }

    fn unit_started(&self, unit: usize) {
    }

    fn unit_exhausted(&self, unit: usize) {
    }
}

/// Why candidates of a length over an alphabet are not enumerated, if they
/// are not: the length is zero, or they are too many for an index.
pub open spec fn length_refusal(alphabet: Seq<char>, length: nat) -> Option<ConfigError> {
    if length == 0 {
        Some(ConfigError::ZeroLength)
    } else if combinations(alphabet.len(), length) > usize::MAX {
        Some(ConfigError::TooManyCombinations)
    } else {
        None
    }
}

/// Where candidates come from.
pub enum CandidateSource<'a> {
    /// Every text of one length over an alphabet, by index.
    Enumerator { alphabet: Vec<char>, length: usize, count: usize },
    /// The lines of one dictionary, in order.
    DictionaryStream { lines: &'a Vec<String> },
}

impl<'a> CandidateSource<'a> {
    /// An enumerator has a length of at least one and knows how many
    /// candidates it has.
    pub open spec fn wf(&self) -> bool {
        match *self {
            CandidateSource::Enumerator { alphabet, length, count } => length >= 1 && count
                == combinations(alphabet@.len(), length as nat),
            CandidateSource::DictionaryStream { lines } => true,
        }
    }

    /// The number of candidates.
    pub open spec fn size(&self) -> nat {
        match *self {
            CandidateSource::Enumerator { alphabet, length, count } => count as nat,
            CandidateSource::DictionaryStream { lines } => lines@.len(),
        }
    }

    /// The candidate at an index.
    pub open spec fn candidate_at(&self, index: int) -> Seq<char> {
        match *self {
            CandidateSource::Enumerator { alphabet, length, count } => candidate(
                index as nat,
                alphabet@,
                length as nat,
            ),
            CandidateSource::DictionaryStream { lines } => lines@[index]@,
        }
    }

    /// The enumerator of one length over an alphabet. A length of zero is
    /// refused, and so is a length whose candidates are too many for an
    /// index.
    pub fn enumerator(alphabet: &str, length: usize) -> (source: Result<Self, ConfigError>)
        ensures
            match source {
                Ok(CandidateSource::Enumerator { alphabet: chars, length: l, count }) => {
                    &&& length_refusal(alphabet@, length as nat) is None
                    &&& chars@ == alphabet@
                    &&& l == length
                    &&& count == combinations(alphabet@.len(), length as nat)
                },
                Ok(CandidateSource::DictionaryStream { lines }) => false,
                Err(e) => length_refusal(alphabet@, length as nat) == Some(e),
            },
    {
        if length == 0 {
            return Err(ConfigError::ZeroLength);
        }
        let chars = chars_of(alphabet);
        match combination_count(chars.len(), length) {
            Some(count) => Ok(CandidateSource::Enumerator { alphabet: chars, length, count }),
            None => Err(ConfigError::TooManyCombinations),
        }
    }

    /// The number of candidates.
    pub fn len(&self) -> (n: usize)
        ensures
            n == self.size(),
    {
        match self {
            CandidateSource::Enumerator { alphabet, length, count } => *count,
            CandidateSource::DictionaryStream { lines } => lines.len(),
        }
    }

    /// The candidate at an index.
    pub fn candidate(&self, index: usize) -> (text: String)
        requires
            self.wf(),
            index < self.size(),
        ensures
            text@ == self.candidate_at(index as int),
    {
        match self {
            CandidateSource::Enumerator { alphabet, length, count } => {
                proof {
                    if alphabet@.len() == 0 {
                        lemma0_pow(*length as nat);
                    }
                }
                combination_from_chars(index, alphabet, *length)
            },
            CandidateSource::DictionaryStream { lines } => lines[index].clone(),
        }
    }
}

/// What a search is up against: the signed text, the signature it
/// carries, and how a candidate is to be tested.
pub struct Target {
    pub content: Seq<char>,
    pub expected_sig: Seq<char>,
    pub algorithm: Option<Algorithm>,
    pub base64: bool,
}

impl Target {
    /// Whether a secret accounts for the signature.
    pub open spec fn accepts(self, secret: Seq<char>) -> bool {
        signature_verifies(
            encode_utf8(self.content),
            encode_utf8(self.expected_sig),
            encode_utf8(secret),
            self.algorithm,
            self.base64,
        )
    }

    /// Whether some candidate of a source verifies.
    pub open spec fn met_by(self, source: CandidateSource) -> bool {
        exists|i: int| 0 <= i < source.size() && self.accepts(#[trigger] source.candidate_at(i))
    }

    /// Whether some line of a dictionary verifies.
    pub open spec fn met_by_lines(self, lines: Seq<String>) -> bool {
        exists|l: int| 0 <= l < lines.len() && self.accepts(#[trigger] lines[l]@)
    }

    /// Whether some candidate of one length over an alphabet verifies.
    pub open spec fn met_by_length(self, alphabet: Seq<char>, length: nat) -> bool {
        exists|i: nat|
            i < combinations(alphabet.len(), length) && self.accepts(
                #[trigger] candidate(i, alphabet, length),
            )
    }
}

/// The target that a token's parts make with an algorithm and a key
/// encoding.
pub open spec fn target_of(jwt: JwtParts, algorithm: Option<Algorithm>, base64: bool) -> Target {
    Target { content: jwt.content@, expected_sig: jwt.expected_sig@, algorithm, base64 }
}

/// Tests the candidate at one index of a source: the candidate where it
/// verifies, nothing where it does not.
pub fn attempt<O: AttemptObserver>(
    source: &CandidateSource,
    jwt: &JwtParts,
    algorithm: Option<Algorithm>,
    base64: bool,
    observer: &O,
    index: usize,
) -> (hit: Option<String>)
    requires
        source.wf(),
        index < source.size(),
    ensures
        hit is Some <==> target_of(*jwt, algorithm, base64).accepts(
            source.candidate_at(index as int),
        ),
        hit matches Some(secret) ==> secret@ == source.candidate_at(index as int),
{
    let text = source.candidate(index);
    match source {
        CandidateSource::Enumerator { alphabet, length, count } => {
            if verify_with(jwt, text.as_str(), algorithm, base64) {
                observer.found(text.as_str());
                Some(text)
            } else {
                observer.tried(text.as_str());
                None
            }
        },
        CandidateSource::DictionaryStream { lines } => {
            observer.tried(text.as_str());
            if verify_with(jwt, text.as_str(), algorithm, base64) {
                Some(text)
            } else {
                None
            }
        },
    }
}

/// `ParallelIterator::find_map_any` of rayon over the indices below
/// `count`, with `attempt` as the map: it returns what `attempt` gave for
/// some index where that is a candidate, and nothing only where `attempt`
/// gave nothing for every index. Which hit comes back, where there are
/// several, is up to the pool.
#[verifier::external_body]
fn find_any<O: AttemptObserver + Sync>(
    source: &CandidateSource,
    count: usize,
    jwt: &JwtParts,
    algorithm: Option<Algorithm>,
    base64: bool,
    observer: &O,
) -> (found: Option<String>)
    requires
        source.wf(),
        count == source.size(),
    ensures
        found matches Some(secret) ==> exists|i: int|
            0 <= i < source.size() && #[trigger] source.candidate_at(i) == secret@ && target_of(
                *jwt,
                algorithm,
                base64,
            ).accepts(source.candidate_at(i)),
        found is None ==> forall|i: int|
            0 <= i < source.size() ==> !target_of(*jwt, algorithm, base64).accepts(
                #[trigger] source.candidate_at(i),
            ),
{
    (0..count).into_par_iter().find_map_any(
        |index| attempt(source, jwt, algorithm, base64, observer, index),
    )
}

/// Searches one source: a candidate of the source that verifies, where
/// there is one; nothing where there is none.
pub fn search<O: AttemptObserver + Sync>(
    source: &CandidateSource,
    jwt: &JwtParts,
    algorithm: Option<Algorithm>,
    base64: bool,
    observer: &O,
) -> (found: Option<String>)
    requires
        source.wf(),
    ensures
        found is Some <==> target_of(*jwt, algorithm, base64).met_by(*source),
        found matches Some(secret) ==> target_of(*jwt, algorithm, base64).accepts(secret@)
            && exists|i: int| 0 <= i < source.size() && #[trigger] source.candidate_at(i) == secret@,
{
    let count = source.len();
    find_any(source, count, jwt, algorithm, base64, observer)
}

/// Searches the candidates of one length over an alphabet. A length of
/// zero is refused, and so is a length whose candidates are too many for
/// an index; else the search finds a candidate that verifies exactly where
/// the length has one.
pub fn try_length<O: AttemptObserver + Sync>(
    jwt: &JwtParts,
    alphabet: &str,
    length: usize,
    algorithm: &str,
    base64: bool,
    observer: &O,
) -> (outcome: Result<Option<String>, ConfigError>)
    ensures
        outcome is Err <==> length_refusal(alphabet@, length as nat) is Some,
        outcome matches Err(e) ==> length_refusal(alphabet@, length as nat) == Some(e),
        outcome matches Ok(found) ==> {
            let target = target_of(*jwt, algorithm_named(uppercased(algorithm@)), base64);
            &&& found is Some <==> target.met_by_length(alphabet@, length as nat)
            &&& found matches Some(secret) ==> target.accepts(secret@) && exists|i: nat|
                i < combinations(alphabet@.len(), length as nat) && #[trigger] candidate(
                    i,
                    alphabet@,
                    length as nat,
                ) == secret@
        },
{
    let selected = parse_algorithm(algorithm);
    match CandidateSource::enumerator(alphabet, length) {
        Ok(source) => {
            let found = search(&source, jwt, selected, base64, observer);
            proof {
                let target = target_of(*jwt, selected, base64);
                if target.met_by(source) {
                    let i = choose|i: int|
                        0 <= i < source.size() && target.accepts(
                            #[trigger] source.candidate_at(i),
                        );
                    assert(target.accepts(candidate(i as nat, alphabet@, length as nat)));
                }
                if target.met_by_length(alphabet@, length as nat) {
                    let i = choose|i: nat|
                        i < combinations(alphabet@.len(), length as nat) && target.accepts(
                            #[trigger] candidate(i, alphabet@, length as nat),
                        );
                    assert(target.accepts(source.candidate_at(i as int)));
                }
                if found is Some {
                    let text = found->0@;
                    let i = choose|i: int|
                        0 <= i < source.size() && #[trigger] source.candidate_at(i) == text;
                    assert(candidate(i as nat, alphabet@, length as nat) == text);
                }
            }
            Ok(found)
        },
        Err(e) => Err(e),
    }
}

/// Whether one of the first `files` dictionaries holds a line that
/// verifies.
pub open spec fn met_by_files(target: Target, dictionaries: Seq<Vec<String>>, files: int) -> bool {
    exists|f: int| 0 <= f < files && target.met_by_lines(#[trigger] dictionaries[f]@)
}

/// Searches dictionaries in order, each to its end before the next is
/// opened. It finds a line that verifies exactly where some dictionary has
/// one, and then from the first dictionary that has one.
pub fn try_dictionary<O: AttemptObserver + Sync>(
    jwt: &JwtParts,
    dictionaries: &Vec<Vec<String>>,
    algorithm: &str,
    base64: bool,
    observer: &O,
) -> (found: Option<String>)
    ensures
        ({
            let target = target_of(*jwt, algorithm_named(uppercased(algorithm@)), base64);
            &&& found is Some <==> met_by_files(target, dictionaries@, dictionaries@.len() as int)
            &&& found matches Some(secret) ==> target.accepts(secret@) && exists|f: int, l: int|
                0 <= f < dictionaries@.len() && 0 <= l < dictionaries@[f]@.len()
                    && #[trigger] dictionaries@[f]@[l]@ == secret@ && !met_by_files(
                    target,
                    dictionaries@,
                    f,
                )
        }),
{
    let selected = parse_algorithm(algorithm);
    let ghost target = target_of(*jwt, selected, base64);
    let mut file: usize = 0;
    while file < dictionaries.len()
        invariant
            file <= dictionaries@.len(),
            selected == algorithm_named(uppercased(algorithm@)),
            target == target_of(*jwt, selected, base64),
            !met_by_files(target, dictionaries@, file as int),
        decreases dictionaries@.len() - file,
    {
        observer.unit_started(file);
        let source = CandidateSource::DictionaryStream { lines: &dictionaries[file] };
        let found = search(&source, jwt, selected, base64, observer);
        proof {
            let lines = dictionaries@[file as int]@;
            if target.met_by(source) {
                let l = choose|l: int|
                    0 <= l < source.size() && target.accepts(#[trigger] source.candidate_at(l));
                assert(target.accepts(lines[l]@));
            }
            if target.met_by_lines(lines) {
                let l = choose|l: int| 0 <= l < lines.len() && target.accepts(#[trigger] lines[l]@);
                assert(target.accepts(source.candidate_at(l)));
            }
        }
        if let Some(secret) = found {
            proof {
                let l = choose|l: int|
                    0 <= l < source.size() && #[trigger] source.candidate_at(l) == secret@;
                assert(dictionaries@[file as int]@[l]@ == secret@);
                assert(target.met_by_lines(dictionaries@[file as int]@));
            }
            return Some(secret);
        }
        observer.unit_exhausted(file);
        file += 1;
    }
    None
}

/// Why a run ends before any candidate is tested.
#[derive(Clone, Debug)]
pub enum CrackError {
    /// The token does not split into three non-empty segments.
    Format(JwtError),
    /// The token splits but its header does not pass validation.
    InvalidToken(ValidationError),
    /// The configuration is refused.
    Config(ConfigError),
}

/// What a `CrackError` says.
pub enum Refusal {
    Format(JwtError),
    InvalidToken(Verdict),
    Config(ConfigError),
}

impl View for CrackError {
    type V = Refusal;

    open spec fn view(&self) -> Refusal {
        match *self {
            CrackError::Format(e) => Refusal::Format(e),
            CrackError::InvalidToken(e) => Refusal::InvalidToken(e@),
            CrackError::Config(e) => Refusal::Config(e),
        }
    }
}

impl Refusal {
    /// The text of the message that goes with a refusal.
    pub open spec fn message_text(self) -> Seq<char> {
        match self {
            Refusal::Format(e) => e.message_text(),
            Refusal::InvalidToken(verdict) => "Invalid JWT token: "@ + verdict.message_text(),
            Refusal::Config(e) => e.message_text(),
        }
    }
}

impl CrackError {
    /// The message that goes with the error.
    pub fn message(&self) -> (text: String)
        ensures
            text@ == self@.message_text(),
    {
        match self {
            CrackError::Format(e) => e.message(),
            CrackError::InvalidToken(e) => {
                let mut text = "Invalid JWT token: ".to_owned();
                text.append(e.message().as_str());
                text
            },
            CrackError::Config(e) => e.message(),
        }
    }
}

/// The target that a token of three segments sets, with the algorithm
/// that a name selects.
pub open spec fn token_target(token: Seq<char>, algorithm: Seq<char>, base64: bool) -> Target {
    Target {
        content: segments(token)[0] + seq!['.'] + segments(token)[1],
        expected_sig: segments(token)[2],
        algorithm: algorithm_named(uppercased(algorithm)),
        base64,
    }
}

/// Whether a configuration asks for more candidates than an index counts.
pub open spec fn too_many(args: Args) -> bool {
    total_combinations(args.alphabet@.len(), args.min_length as nat, args.max_length as nat)
        > usize::MAX
}

/// Why a run is refused, if it is: the token is judged first, then the
/// algorithm, then, unless dictionaries are given, the length range.
pub open spec fn refusal(args: Args) -> Option<Refusal> {
    if !well_formed(args.token@) {
        Some(Refusal::Format(JwtError::InvalidFormat))
    } else if token_verdict(args.token@) != Verdict::Valid {
        Some(Refusal::InvalidToken(token_verdict(args.token@)))
    } else if algorithm_named(uppercased(args.algorithm@)) is None {
        Some(Refusal::Config(ConfigError::UnsupportedAlgorithm))
    } else if args.dictionary is Some {
        None
    } else if args.min_length == 0 {
        Some(Refusal::Config(ConfigError::ZeroLength))
    } else if too_many(args) {
        Some(Refusal::Config(ConfigError::TooManyCombinations))
    } else {
        None
    }
}

/// Whether some length from `from` up to, but not including, `to` has a
/// candidate that verifies.
pub open spec fn met_by_lengths(target: Target, alphabet: Seq<char>, from: nat, to: nat) -> bool {
    exists|length: nat| from <= length < to && #[trigger] target.met_by_length(alphabet, length)
}

/// What a run that is not refused must return: nothing exactly where the
/// search space holds no secret, else a secret from the first dictionary,
/// or of the shortest length, that holds one.
pub open spec fn crack_result(
    args: Args,
    dictionaries: Seq<Vec<String>>,
    found: Option<String>,
) -> bool {
    let target = token_target(args.token@, args.algorithm@, args.base64);
    if args.dictionary is Some {
        &&& found is Some <==> met_by_files(target, dictionaries, dictionaries.len() as int)
        &&& found matches Some(secret) ==> target.accepts(secret@) && exists|f: int, l: int|
            0 <= f < dictionaries.len() && 0 <= l < dictionaries[f]@.len()
                && #[trigger] dictionaries[f]@[l]@ == secret@ && !met_by_files(
                target,
                dictionaries,
                f,
            )
    } else {
        &&& found is Some <==> met_by_lengths(
            target,
            args.alphabet@,
            args.min_length as nat,
            (args.max_length + 1) as nat,
        )
        &&& found matches Some(secret) ==> target.accepts(secret@) && exists|length: nat, i: nat|
            args.min_length <= length <= args.max_length && i < combinations(
                args.alphabet@.len(),
                length,
            ) && #[trigger] candidate(i, args.alphabet@, length) == secret@ && !met_by_lengths(
                target,
                args.alphabet@,
                args.min_length as nat,
                length,
            )
    }
}

/// What a run must return: the refusal where the configuration has one,
/// else the result of the search.
pub open spec fn crack_outcome(
    args: Args,
    dictionaries: Seq<Vec<String>>,
    outcome: Result<Option<String>, CrackError>,
) -> bool {
    match outcome {
        Err(e) => refusal(args) == Some(e@),
        Ok(found) => refusal(args) is None && crack_result(args, dictionaries, found),
    }
}

/// Judges a configuration before any search: the token's parts where the
/// run may go on, the refusal where it may not. No source of candidates
/// is looked at.
pub fn validate_run(args: &Args) -> (checked: Result<JwtParts, CrackError>)
    ensures
        match checked {
            Err(e) => refusal(*args) == Some(e@),
            Ok(jwt) => refusal(*args) is None && target_of(
                jwt,
                algorithm_named(uppercased(args.algorithm@)),
                args.base64,
            ) == token_target(args.token@, args.algorithm@, args.base64),
        },
{
    let jwt = match parse_token(args.token.as_str()) {
        Ok(parts) => parts,
        Err(e) => {
            return Err(CrackError::Format(e));
        },
    };
    if let Err(e) = JwtValidator::validate_token(args.token.as_str()) {
        return Err(CrackError::InvalidToken(e));
    }
    if parse_algorithm(args.algorithm.as_str()).is_none() {
        return Err(CrackError::Config(ConfigError::UnsupportedAlgorithm));
    }
    if args.dictionary.is_some() {
        return Ok(jwt);
    }
    if args.min_length == 0 {
        return Err(CrackError::Config(ConfigError::ZeroLength));
    }
    let base = args.alphabet.as_str().unicode_len();
    let fits = match count_total(base, args.min_length, args.max_length) {
        Some(total) => total <= usize::MAX as u64,
        None => false,
    };
    if !fits {
        return Err(CrackError::Config(ConfigError::TooManyCombinations));
    }
    Ok(jwt)
}

/// Runs a search. The token is split and validated and the configuration
/// checked before any candidate is tested. With dictionaries configured,
/// their lines are searched, one dictionary after the other, and the
/// length range is ignored; `dictionaries` holds the lines of each. Else
/// the lengths from the minimum to the maximum are searched in ascending
/// order. The first search that finds a secret ends the run.
pub fn crack<O: AttemptObserver + Sync>(
    args: &Args,
    dictionaries: &Vec<Vec<String>>,
    observer: &O,
) -> (outcome: Result<Option<String>, CrackError>)
    ensures
        crack_outcome(*args, dictionaries@, outcome),
{
    let jwt = match validate_run(args) {
        Ok(parts) => parts,
        Err(e) => {
            return Err(e);
        },
    };
    let ghost target = token_target(args.token@, args.algorithm@, args.base64);
    if args.dictionary.is_some() {
        return Ok(
            try_dictionary(&jwt, dictionaries, args.algorithm.as_str(), args.base64, observer),
        );
    }
    if args.max_length < args.min_length {
        return Ok(None);
    }
    let mut length: usize = args.min_length;
    loop
        invariant
            refusal(*args) is None,
            args.dictionary is None,
            !too_many(*args),
            args.min_length <= length <= args.max_length,
            target == token_target(args.token@, args.algorithm@, args.base64),
            target == target_of(jwt, algorithm_named(uppercased(args.algorithm@)), args.base64),
            !met_by_lengths(target, args.alphabet@, args.min_length as nat, length as nat),
        ensures
            !met_by_lengths(
                target,
                args.alphabet@,
                args.min_length as nat,
                (args.max_length + 1) as nat,
            ),
        decreases args.max_length - length,
    {
        proof {
            lemma_total_covers(
                args.alphabet@.len(),
                args.min_length as nat,
                length as nat,
                args.max_length as nat,
            );
        }
        observer.unit_started(length);
        match try_length(
            &jwt,
            args.alphabet.as_str(),
            length,
            args.algorithm.as_str(),
            args.base64,
            observer,
        ) {
            Ok(Some(secret)) => {
                assert(target.met_by_length(args.alphabet@, length as nat));
                return Ok(Some(secret));
            },
            Ok(None) => {},
            Err(e) => {
                return Err(CrackError::Config(e));
            },
        }
        assert(!met_by_lengths(target, args.alphabet@, args.min_length as nat, (length + 1) as nat));
        observer.unit_exhausted(length);
        if length == args.max_length {
            break;
        }
        length += 1;
    }
    Ok(None)
}

/// The share that a percentage option asks for: the option's value, or
/// 100 where none is given.
pub open spec fn share(limit: Option<usize>) -> int {
    match limit {
        Some(value) => value as int,
        None => 100,
    }
}

fn share_of(limit: Option<usize>) -> (percentage: u8)
    requires
        !out_of_range(limit),
    ensures
        percentage == share(limit),
        1 <= percentage <= 100,
{
    match limit {
        Some(value) => value as u8,
        None => 100,
    }
}

/// The budget that a configuration asks for; each percentage that is
/// given lies between 1 and 100. Where no core count is given, the
/// machine's is taken.
pub fn hardware_config(args: &Args) -> (config: HardwareConfig)
    requires
        !out_of_range(args.gpu_limit),
        !out_of_range(args.cpu),
        !out_of_range(args.ram),
        !out_of_range(args.limit),
    ensures
        config.gpu_enabled == args.gpu,
        config.gpu_limit == share(args.gpu_limit),
        config.cpu_limit == share(args.cpu),
        config.ram_limit == share(args.ram),
        config.global_limit == share(args.limit),
        args.cores matches Some(cores) ==> config.core_limit == cores,
        args.cores is None ==> config.core_limit >= 1,
{
    let config = HardwareConfig::new().with_gpu(args.gpu).with_gpu_limit(
        share_of(args.gpu_limit),
    ).with_cpu_limit(share_of(args.cpu)).with_ram_limit(share_of(args.ram));
    let config = match args.cores {
        Some(cores) => config.with_core_limit(cores),
        None => config,
    };
    config.with_global_limit(share_of(args.limit))
}

/// No false positives: a secret that a length search reports verifies and
/// has a length of the range; so where every secret that verifies has a
/// length outside the range, no secret is reported.
pub proof fn lemma_found_within_range(
    args: Args,
    dictionaries: Seq<Vec<String>>,
    outcome: Result<Option<String>, CrackError>,
)
    requires
        args.dictionary is None,
        crack_outcome(args, dictionaries, outcome),
    ensures
        outcome matches Ok(Some(secret)) ==> args.min_length <= secret@.len() <= args.max_length
            && token_target(args.token@, args.algorithm@, args.base64).accepts(secret@),
        (forall|secret: Seq<char>|
            #[trigger] token_target(args.token@, args.algorithm@, args.base64).accepts(secret)
                ==> secret.len() < args.min_length || secret.len() > args.max_length) ==> !(
        outcome matches Ok(Some(_))),
{
    let target = token_target(args.token@, args.algorithm@, args.base64);
    if let Ok(Some(found)) = outcome {
        let secret = found@;
        let (length, i) = choose|length: nat, i: nat|
            args.min_length <= length <= args.max_length && i < combinations(
                args.alphabet@.len(),
                length,
            ) && #[trigger] candidate(i, args.alphabet@, length) == secret;
        assert(secret.len() == length);
        assert(target.accepts(secret));
    }
}

/// Exhaustion: where no candidate of any length of the range verifies, a
/// length search that is not refused reports that there is no secret.
pub proof fn lemma_exhausted(
    args: Args,
    dictionaries: Seq<Vec<String>>,
    outcome: Result<Option<String>, CrackError>,
)
    requires
        args.dictionary is None,
        refusal(args) is None,
        crack_outcome(args, dictionaries, outcome),
        forall|length: nat, i: nat|
            args.min_length <= length <= args.max_length && i < combinations(
                args.alphabet@.len(),
                length,
            ) ==> !token_target(args.token@, args.algorithm@, args.base64).accepts(
                #[trigger] candidate(i, args.alphabet@, length),
            ),
    ensures
        outcome == Ok::<Option<String>, CrackError>(None),
{
    let target = token_target(args.token@, args.algorithm@, args.base64);
    if let Ok(Some(found)) = outcome {
        let secret = found@;
        let (length, i) = choose|length: nat, i: nat|
            args.min_length <= length <= args.max_length && i < combinations(
                args.alphabet@.len(),
                length,
            ) && #[trigger] candidate(i, args.alphabet@, length) == secret;
        assert(target.accepts(candidate(i, args.alphabet@, length)));
    }
}

/// Short circuit: where a dictionary holds a line that verifies, a
/// dictionary search that is not refused reports a secret that verifies,
/// whatever lines and dictionaries come after that line.
pub proof fn lemma_dictionary_hit(
    args: Args,
    dictionaries: Seq<Vec<String>>,
    outcome: Result<Option<String>, CrackError>,
    file: int,
    line: int,
)
    requires
        args.dictionary is Some,
        refusal(args) is None,
        crack_outcome(args, dictionaries, outcome),
        0 <= file < dictionaries.len(),
        0 <= line < dictionaries[file]@.len(),
        token_target(args.token@, args.algorithm@, args.base64).accepts(
            dictionaries[file]@[line]@,
        ),
    ensures
        outcome matches Ok(Some(secret)) && token_target(
            args.token@,
            args.algorithm@,
            args.base64,
        ).accepts(secret@),
{
    let target = token_target(args.token@, args.algorithm@, args.base64);
    assert(target.met_by_lines(dictionaries[file]@));
    assert(met_by_files(target, dictionaries, dictionaries.len() as int));
}

/// A token that is not three non-empty segments is refused as malformed,
/// whatever else is configured.
pub proof fn lemma_malformed_refused(
    args: Args,
    dictionaries: Seq<Vec<String>>,
    outcome: Result<Option<String>, CrackError>,
)
    requires
        !well_formed(args.token@),
        crack_outcome(args, dictionaries, outcome),
    ensures
        outcome matches Err(e) && e@ == Refusal::Format(JwtError::InvalidFormat),
{
}

} // verus!
