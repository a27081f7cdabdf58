//! Validation of the command and the working directory of a spawn request.
use vstd::prelude::*;
use regex::RegexBuilder;
use crate::text::{is_blank, is_blank_str, is_unicode_whitespace};
use crate::disk::{canonicalize_path, path_exists, path_is_dir, CanonicalAnswer, ExistsAnswer, IsDirAnswer};

verus! {

broadcast use vstd::string::group_string_axioms;

/// The longest command accepted, in characters.
pub const MAX_COMMAND_CHARS: usize = 10000;

#[verifier::external_type_specification]
#[verifier::external_body]
pub struct ExRegex(regex::Regex);

#[verifier::external_type_specification]
#[verifier::external_body]
pub struct ExRegexError(regex::Error);

/// Whether `pattern` is accepted by the `regex` crate's builder with
/// case-insensitive matching switched on.
pub uninterp spec fn case_insensitive_regex_compiles(pattern: Seq<char>) -> bool;

/// Whether the case-insensitive regular expression `pattern` matches
/// somewhere in `haystack`, as the `regex` crate decides it.
pub uninterp spec fn case_insensitive_regex_matches(pattern: Seq<char>, haystack: Seq<char>) -> bool;

/// A regular expression compiled from `source`, matching case-insensitively.
pub struct CompiledPattern<'a> {
    source: &'a str,
    regex: regex::Regex,
}

impl<'a> View for CompiledPattern<'a> {
    type V = Seq<char>;

    closed spec fn view(&self) -> Seq<char> {
        self.source@
    }
}

/// Calls `RegexBuilder::new(pattern).case_insensitive(true).build()`.
/// Trusted: the build succeeds exactly for the patterns named by
/// `case_insensitive_regex_compiles`, and the compiled value keeps
/// `pattern` as its source.
#[verifier::external_body]
fn compile_case_insensitive<'a>(pattern: &'a str) -> (r: Result<CompiledPattern<'a>, regex::Error>)
    ensures
        r is Ok <==> case_insensitive_regex_compiles(pattern@),
        r matches Ok(p) ==> p@ == pattern@,
{
    match RegexBuilder::new(pattern).case_insensitive(true).build() {
        Ok(regex) => Ok(CompiledPattern { source: pattern, regex }),
        Err(e) => Err(e),
    }
}

/// Calls `Regex::is_match`. Trusted: the answer is the one named by
/// `case_insensitive_regex_matches` for the pattern's source and `haystack`.
#[verifier::external_body]
fn regex_is_match(pattern: &CompiledPattern, haystack: &str) -> (r: bool)
    ensures
        r == case_insensitive_regex_matches(pattern@, haystack@),
{
    pattern.regex.is_match(haystack)
}

/// The dangerous-command patterns, in the order they are tried.
pub open spec fn dangerous_pattern(i: int) -> Seq<char> {
    if i == 0 {
        "rm\\s+-rf\\s+/"@
    } else if i == 1 {
        ":\\(\\)\\{\\s*:\\|:\\s*&\\s*\\};:"@
    } else {
        "dd\\s+if=/dev/zero"@
    }
}

/// How many dangerous-command patterns there are.
pub const DANGEROUS_PATTERN_COUNT: usize = 3;

/// The `i`-th dangerous-command pattern.
pub fn dangerous_pattern_at(i: usize) -> (r: &'static str)
    requires
        i < DANGEROUS_PATTERN_COUNT,
    ensures
        r@ == dangerous_pattern(i as int),
{
    if i == 0 {
        "rm\\s+-rf\\s+/"
    } else if i == 1 {
        ":\\(\\)\\{\\s*:\\|:\\s*&\\s*\\};:"
    } else {
        "dd\\s+if=/dev/zero"
    }
}

/// All dangerous-command patterns compile.
pub open spec fn dangerous_patterns_compile_spec() -> bool {
    forall|i: int| 0 <= i < DANGEROUS_PATTERN_COUNT ==> case_insensitive_regex_compiles(#[trigger] dangerous_pattern(i))
}

/// The first index of a dangerous pattern, at or after `from`, whose
/// answer in `matches` is yes.
pub open spec fn first_match_index(matches: Seq<bool>, from: int) -> Option<int>
    decreases matches.len() - from,
{
    if from < 0 || from >= matches.len() || from >= DANGEROUS_PATTERN_COUNT {
        None
    } else if matches[from] {
        Some(from)
    } else {
        first_match_index(matches, from + 1)
    }
}

/// For each dangerous pattern in order, whether it matches `command`.
pub open spec fn dangerous_matches(command: Seq<char>) -> Seq<bool> {
    Seq::new(
        DANGEROUS_PATTERN_COUNT as nat,
        |i: int| case_insensitive_regex_matches(dangerous_pattern(i), command),
    )
}

pub open spec fn empty_command_message() -> Seq<char> {
    "Command cannot be empty"@
}

pub open spec fn command_too_long_message() -> Seq<char> {
    "Command too long (max 10000 characters)"@
}

pub open spec fn dangerous_pattern_message(pattern: Seq<char>) -> Seq<char> {
    "Command contains potentially dangerous pattern: "@ + pattern
}

/// What validating `command` gives when `matches` tells, for each
/// dangerous pattern in order, whether it matches: the first failed check
/// (blank, more than 10000 characters, the first matching pattern), or
/// success.
pub open spec fn command_verdict_given(command: Seq<char>, matches: Seq<bool>) -> Result<(), Seq<char>> {
    if is_blank(command) {
        Err(empty_command_message())
    } else if command.len() > MAX_COMMAND_CHARS {
        Err(command_too_long_message())
    } else {
        match first_match_index(matches, 0) {
            Some(i) => Err(dangerous_pattern_message(dangerous_pattern(i))),
            None => Ok(()),
        }
    }
}

/// What validating `command` gives.
pub open spec fn command_verdict(command: Seq<char>) -> Result<(), Seq<char>> {
    command_verdict_given(command, dangerous_matches(command))
}

/// A `Result` whose error text is taken by its view.
pub open spec fn unit_result_view(r: Result<(), String>) -> Result<(), Seq<char>> {
    match r {
        Ok(()) => Ok(()),
        Err(e) => Err(e@),
    }
}

/// Whether every dangerous-command pattern compiles.
pub fn dangerous_patterns_compile() -> (r: bool)
    ensures
        r == dangerous_patterns_compile_spec(),
{
    let mut i: usize = 0;
    while i < DANGEROUS_PATTERN_COUNT
        invariant
            i <= DANGEROUS_PATTERN_COUNT,
            forall|j: int| 0 <= j < i ==> case_insensitive_regex_compiles(#[trigger] dangerous_pattern(j)),
        decreases DANGEROUS_PATTERN_COUNT - i,
    {
        let p = dangerous_pattern_at(i);
        match compile_case_insensitive(p) {
            Ok(_) => {},
            Err(_) => {
                return false;
            },
        }
        i = i + 1;
    }
    true
}

/// For each dangerous pattern in order, whether it matches `command`.
pub fn match_dangerous_patterns(command: &str) -> (r: Vec<bool>)
    requires
        dangerous_patterns_compile_spec(),
    ensures
        r@ == dangerous_matches(command@),
{
    let mut r: Vec<bool> = Vec::new();
    let mut i: usize = 0;
    while i < DANGEROUS_PATTERN_COUNT
        invariant
            i <= DANGEROUS_PATTERN_COUNT,
            dangerous_patterns_compile_spec(),
            r@.len() == i,
            forall|j: int| 0 <= j < i ==> r@[j] == #[trigger] case_insensitive_regex_matches(dangerous_pattern(j), command@),
        decreases DANGEROUS_PATTERN_COUNT - i,
    {
        let p = dangerous_pattern_at(i);
        assert(case_insensitive_regex_compiles(dangerous_pattern(i as int)));
        let answer = match compile_case_insensitive(p) {
            Ok(re) => regex_is_match(&re, command),
            Err(_) => false,
        };
        r.push(answer);
        i = i + 1;
    }
    assert(r@ =~= dangerous_matches(command@));
    r
}

/// Decides the validation answer for `command` given, for each dangerous
/// pattern in order, whether it matches.
pub fn decide_command(command: &str, matches: &Vec<bool>) -> (r: Result<(), String>)
    ensures
        unit_result_view(r) == command_verdict_given(command@, matches@),
{
    if command.is_empty() || is_blank_str(command) {
        return Err("Command cannot be empty".to_string());
    }
    if command.unicode_len() > MAX_COMMAND_CHARS {
        return Err("Command too long (max 10000 characters)".to_string());
    }
    let n = if matches.len() < DANGEROUS_PATTERN_COUNT { matches.len() } else { DANGEROUS_PATTERN_COUNT };
    let mut i: usize = 0;
    while i < n
        invariant
            i <= n,
            n == if matches@.len() < DANGEROUS_PATTERN_COUNT { matches@.len() } else { DANGEROUS_PATTERN_COUNT as nat },
            !is_blank(command@),
            command@.len() <= MAX_COMMAND_CHARS,
            first_match_index(matches@, 0) == first_match_index(matches@, i as int),
        decreases n - i,
    {
        if matches[i] {
            let mut msg = "Command contains potentially dangerous pattern: ".to_string();
            msg.append(dangerous_pattern_at(i));
            return Err(msg);
        }
        i = i + 1;
    }
    Ok(())
}

/// Validate a shell command for safety and basic constraints.
///
/// Returns `Ok(())` if the command is valid, or `Err(message)` with the
/// first failed check: blank, longer than 10000 characters, or matching
/// one of the dangerous patterns (case-insensitively).
pub fn validate_command(command: &str) -> (r: Result<(), String>)
    requires
        dangerous_patterns_compile_spec(),
    ensures
        unit_result_view(r) == command_verdict(command@),
{
    if command.is_empty() || is_blank_str(command) || command.unicode_len() > MAX_COMMAND_CHARS {
        // The answer does not depend on the patterns here.
        let none = vec![false, false, false];
        return decide_command(command, &none);
    }
    let matches = match_dangerous_patterns(command);
    decide_command(command, &matches)
}

pub open spec fn empty_cwd_message() -> Seq<char> {
    "Working directory cannot be empty string"@
}

pub open spec fn missing_cwd_message(cwd: Seq<char>) -> Seq<char> {
    "Working directory does not exist: "@ + cwd
}

pub open spec fn not_directory_message(cwd: Seq<char>) -> Seq<char> {
    "Working directory is not a directory: "@ + cwd
}

pub open spec fn invalid_cwd_prefix() -> Seq<char> {
    "Invalid working directory: "@
}

/// A validated working directory with its texts taken by their views.
pub open spec fn cwd_result_view(r: Result<Option<String>, String>) -> Result<Option<Seq<char>>, Seq<char>> {
    match r {
        Ok(Some(p)) => Ok(Some(p@)),
        Ok(None) => Ok(None),
        Err(e) => Err(e@),
    }
}

/// The outcomes that validating the non-blank directory `cwd` may have,
/// whatever the file system holds: an absolute resolved path, or one of
/// the three errors.
pub open spec fn possible_cwd_outcome(cwd: Seq<char>, r: Result<Option<Seq<char>>, Seq<char>>) -> bool {
    match r {
        Ok(Some(p)) => p.len() > 0,
        Ok(None) => false,
        Err(e) => {
            ||| e == missing_cwd_message(cwd)
            ||| e == not_directory_message(cwd)
            ||| exists|detail: Seq<char>| e == invalid_cwd_prefix() + detail
        },
    }
}

/// An optional text taken by its view.
pub open spec fn optional_text_view(t: Option<&str>) -> Option<Seq<char>> {
    match t {
        Some(s) => Some(s@),
        None => None,
    }
}

/// What validating the optional working directory `cwd` may give:
/// nothing to resolve, the blank-path error, or (for a non-blank path)
/// one of the outcomes that the file system decides among.
pub open spec fn cwd_outcome_allowed(cwd: Option<Seq<char>>, r: Result<Option<Seq<char>>, Seq<char>>) -> bool {
    match cwd {
        None => r == Ok::<Option<Seq<char>>, Seq<char>>(None),
        Some(c) => if is_blank(c) {
            r == Err::<Option<Seq<char>>, Seq<char>>(empty_cwd_message())
        } else {
            possible_cwd_outcome(c, r)
        },
    }
}

/// What the checks on the file system give for the non-blank directory
/// `cwd`: whether it exists, whether it is a directory, and (for a
/// directory only) the resolved path or the text of the resolution error.
pub open spec fn cwd_verdict(
    cwd: Seq<char>,
    exists: bool,
    is_dir: bool,
    resolved: Option<Result<Seq<char>, Seq<char>>>,
) -> Result<Option<Seq<char>>, Seq<char>> {
    if !exists {
        Err(missing_cwd_message(cwd))
    } else if !is_dir {
        Err(not_directory_message(cwd))
    } else {
        match resolved {
            Some(Ok(p)) => Ok(Some(p)),
            Some(Err(detail)) => Err(invalid_cwd_prefix() + detail),
            None => Err(invalid_cwd_prefix()),
        }
    }
}

/// An optional resolution taken by its view.
pub open spec fn resolution_view(r: Option<Result<String, String>>) -> Option<Result<Seq<char>, Seq<char>>> {
    match r {
        Some(Ok(p)) => Some(Ok(p@)),
        Some(Err(e)) => Some(Err(e@)),
        None => None,
    }
}

/// What an optional resolution answer says.
pub open spec fn canonical_says(r: Option<CanonicalAnswer>) -> Option<Result<Seq<char>, Seq<char>>> {
    match r {
        Some(a) => Some(a.says()),
        None => None,
    }
}

/// Whether a directory answer was given and says yes.
pub open spec fn is_dir_says(d: Option<IsDirAnswer>) -> bool {
    d matches Some(a) && a.says()
}

/// The answers are about `cwd`, each asked only where the one before
/// allows it: whether it is a directory only for an existing path, and
/// its resolution only for a directory.
pub open spec fn answers_about(
    cwd: Seq<char>,
    exists: ExistsAnswer,
    is_dir: Option<IsDirAnswer>,
    resolved: Option<CanonicalAnswer>,
) -> bool {
    &&& exists.asked() == cwd
    &&& (is_dir is Some <==> exists.says())
    &&& (is_dir matches Some(d) ==> d.asked() == cwd)
    &&& (resolved is Some <==> is_dir_says(is_dir))
    &&& (resolved matches Some(res) ==> res.asked() == cwd)
}

/// What validating the optional working directory `cwd` gives: nothing to
/// resolve, the blank-path error, or, for a non-blank path, the verdict
/// on answers that the file system gave about `cwd` itself.
pub open spec fn cwd_answered(cwd: Option<Seq<char>>, r: Result<Option<Seq<char>>, Seq<char>>) -> bool {
    match cwd {
        None => r == Ok::<Option<Seq<char>>, Seq<char>>(None),
        Some(c) => if is_blank(c) {
            r == Err::<Option<Seq<char>>, Seq<char>>(empty_cwd_message())
        } else {
            exists|e: ExistsAnswer, d: Option<IsDirAnswer>, res: Option<CanonicalAnswer>|
                #[trigger] answers_about(c, e, d, res) && r == cwd_verdict(c, e.says(), is_dir_says(d), canonical_says(res))
        },
    }
}

/// Decides the answer for the non-blank directory `cwd` from what the
/// file system said of it: missing, not a directory, resolved, or not
/// resolvable.
pub fn cwd_outcome(cwd: &str, exists: bool, is_dir: bool, resolved: Option<Result<String, String>>) -> (r: Result<
    Option<String>,
    String,
>)
    ensures
        cwd_result_view(r) == cwd_verdict(cwd@, exists, is_dir, resolution_view(resolved)),
{
    if !exists {
        let mut msg = "Working directory does not exist: ".to_string();
        msg.append(cwd);
        return Err(msg);
    }
    if !is_dir {
        let mut msg = "Working directory is not a directory: ".to_string();
        msg.append(cwd);
        return Err(msg);
    }
    match resolved {
        Some(Ok(path)) => Ok(Some(path)),
        Some(Err(detail)) => {
            let mut msg = "Invalid working directory: ".to_string();
            msg.append(detail.as_str());
            Err(msg)
        },
        None => Err("Invalid working directory: ".to_string()),
    }
}

/// Validate and resolve a working directory path.
///
/// Returns `Ok(None)` if `cwd` is `None`, `Ok(Some(resolved_path))` if valid,
/// or `Err(message)` if invalid. A blank path is refused without looking
/// at the file system; otherwise the file system is asked about `cwd`
/// itself, and what it says decides, as `cwd_outcome` states.
pub fn validate_cwd(cwd: Option<&str>) -> (r: Result<Option<String>, String>)
    ensures
        cwd_answered(optional_text_view(cwd), cwd_result_view(r)),
        cwd_outcome_allowed(optional_text_view(cwd), cwd_result_view(r)),
{
    let cwd = match cwd {
        None => return Ok(None),
        Some(s) => s,
    };
    if is_blank_str(cwd) {
        return Err("Working directory cannot be empty string".to_string());
    }
    let exists = path_exists(cwd);
    let found = exists.holds();
    let is_dir = if found {
        Some(path_is_dir(cwd))
    } else {
        None
    };
    let dir = match &is_dir {
        Some(d) => d.holds(),
        None => false,
    };
    let answer = if dir {
        Some(canonicalize_path(cwd))
    } else {
        None
    };
    let ghost said = canonical_says(answer);
    let resolved = match answer {
        Some(a) => Some(a.into_resolved()),
        None => None,
    };
    assert(resolution_view(resolved) == said);
    let r = cwd_outcome(cwd, found, dir, resolved);
    proof {
        assert(answers_about(cwd@, exists, is_dir, answer));
        match said {
            Some(Err(detail)) => {
                assert(cwd_result_view(r) == Err::<Option<Seq<char>>, Seq<char>>(invalid_cwd_prefix() + detail));
            },
            _ => {},
        }
    }
    r
}

/// Validates a spawn request: the command first, then the working
/// directory, as the spawn tool does before it starts anything. `None`
/// when the dangerous-command patterns do not compile, where command
/// validation cannot be carried out.
pub fn validate_spawn_request(command: &str, cwd: Option<&str>) -> (r: Option<Result<Option<String>, String>>)
    ensures
        r is Some <==> dangerous_patterns_compile_spec(),
        r matches Some(res) ==> match command_verdict(command@) {
            Err(e) => cwd_result_view(res) == Err::<Option<Seq<char>>, Seq<char>>(e),
            Ok(()) => cwd_answered(optional_text_view(cwd), cwd_result_view(res)) && cwd_outcome_allowed(
                optional_text_view(cwd),
                cwd_result_view(res),
            ),
        },
{
    if !dangerous_patterns_compile() {
        return None;
    }
    match validate_command(command) {
        Err(e) => Some(Err(e)),
        Ok(()) => Some(validate_cwd(cwd)),
    }
}

/// No answer at or after `from` says yes: then no pattern is found.
proof fn lemma_no_match_found(matches: Seq<bool>, from: int)
    requires
        0 <= from,
        forall|k: int| from <= k < matches.len() && k < DANGEROUS_PATTERN_COUNT ==> !#[trigger] matches[k],
    ensures
        first_match_index(matches, from) is None,
    decreases matches.len() - from,
{
    if from < matches.len() && from < DANGEROUS_PATTERN_COUNT {
        lemma_no_match_found(matches, from + 1);
    }
}

/// A pattern found is one whose answer says yes, with no earlier one that
/// does.
proof fn lemma_found_match_is_first(matches: Seq<bool>, from: int)
    requires
        0 <= from,
    ensures
        first_match_index(matches, from) matches Some(i) ==> from <= i < matches.len() && i < DANGEROUS_PATTERN_COUNT
            && matches[i] && forall|k: int| from <= k < i ==> !#[trigger] matches[k],
    decreases matches.len() - from,
{
    if from < matches.len() && from < DANGEROUS_PATTERN_COUNT && !matches[from] {
        lemma_found_match_is_first(matches, from + 1);
    }
}

/// What validating a command answers, for every command and every set of
/// pattern answers: it is refused as empty exactly when every character
/// is white space (a command with leading or trailing white space is not
/// empty); refused as too long exactly when it is not blank and holds more
/// than 10000 characters; refused as dangerous only for a pattern that
/// matches, the first one that does; and accepted whenever it is not blank,
/// not too long and no pattern matches.
pub proof fn lemma_command_verdict_law(command: Seq<char>, matches: Seq<bool>)
    ensures
        command_verdict_given(command, matches) == Err::<(), Seq<char>>(empty_command_message()) <==> (forall|i: int|
            0 <= i < command.len() ==> is_unicode_whitespace(#[trigger] command[i])),
        command_verdict_given(command, matches) == Err::<(), Seq<char>>(command_too_long_message()) <==> (exists|i: int|
            0 <= i < command.len() && !is_unicode_whitespace(#[trigger] command[i])) && command.len() > 10000,
        forall|p: Seq<char>|
            command_verdict_given(command, matches) == Err::<(), Seq<char>>(#[trigger] dangerous_pattern_message(p))
                ==> exists|i: int|
                0 <= i < 3 && i < matches.len() && matches[i] && p == dangerous_pattern(i) && forall|k: int|
                    0 <= k < i ==> !#[trigger] matches[k],
        (exists|i: int| 0 <= i < command.len() && !is_unicode_whitespace(#[trigger] command[i])) && command.len() <= 10000
            && (forall|k: int| 0 <= k < matches.len() && k < 3 ==> !#[trigger] matches[k]) ==> command_verdict_given(
            command,
            matches,
        ) == Ok::<(), Seq<char>>(()),
        (exists|i: int| 0 <= i < command.len() && !is_unicode_whitespace(#[trigger] command[i])) && command.len() <= 10000
            && (forall|k: int| 0 <= k < 3 ==> !case_insensitive_regex_matches(#[trigger] dangerous_pattern(k), command))
            ==> command_verdict(command) == Ok::<(), Seq<char>>(()),
{
    reveal_strlit("Command cannot be empty");
    reveal_strlit("Command too long (max 10000 characters)");
    reveal_strlit("Command contains potentially dangerous pattern: ");
    let empty = empty_command_message();
    let long = command_too_long_message();
    assert(empty[9] == 'a');
    assert(long[9] == 'o');
    assert(long[8] == 't');
    assert forall|p: Seq<char>| #[trigger] dangerous_pattern_message(p)[9] == 'o' && dangerous_pattern_message(p)[8] == 'c'
        && dangerous_pattern_message(p) != empty && dangerous_pattern_message(p) != long by {
        assert(dangerous_pattern_message(p)[9] == 'o');
        assert(dangerous_pattern_message(p)[8] == 'c');
    }
    assert(empty != long);
    lemma_found_match_is_first(matches, 0);
    assert forall|p: Seq<char>|
        command_verdict_given(command, matches) == Err::<(), Seq<char>>(#[trigger] dangerous_pattern_message(p))
            implies exists|i: int|
            0 <= i < 3 && i < matches.len() && matches[i] && p == dangerous_pattern(i) && forall|k: int|
                0 <= k < i ==> !#[trigger] matches[k] by {
        let i = first_match_index(matches, 0)->0;
        let q = dangerous_pattern(i);
        let prefix = "Command contains potentially dangerous pattern: "@;
        assert(dangerous_pattern_message(q) == dangerous_pattern_message(p));
        assert(dangerous_pattern_message(p).subrange(prefix.len() as int, dangerous_pattern_message(p).len() as int) =~= p);
        assert(dangerous_pattern_message(q).subrange(prefix.len() as int, dangerous_pattern_message(q).len() as int) =~= q);
    }
    if (forall|k: int| 0 <= k < matches.len() && k < 3 ==> !#[trigger] matches[k]) {
        lemma_no_match_found(matches, 0);
    }
    let dm = dangerous_matches(command);
    if (forall|k: int| 0 <= k < 3 ==> !case_insensitive_regex_matches(#[trigger] dangerous_pattern(k), command)) {
        assert forall|k: int| 0 <= k < dm.len() && k < 3 implies !#[trigger] dm[k] by {
            assert(!case_insensitive_regex_matches(dangerous_pattern(k), command));
        }
        lemma_no_match_found(dm, 0);
    }
}

/// What the file-system answers decide for a working directory: it is
/// reported missing exactly when it does not exist; reported as no
/// directory exactly when it exists and is not one; an existing directory
/// with a resolved path is accepted as that path, whatever form `cwd`
/// had (relative or absolute); and only an existing directory with a
/// resolved path is accepted.
pub proof fn lemma_cwd_verdict_law(
    cwd: Seq<char>,
    exists: bool,
    is_dir: bool,
    resolved: Option<Result<Seq<char>, Seq<char>>>,
)
    ensures
        cwd_verdict(cwd, exists, is_dir, resolved) == Err::<Option<Seq<char>>, Seq<char>>(missing_cwd_message(cwd)) <==> !exists,
        cwd_verdict(cwd, exists, is_dir, resolved) == Err::<Option<Seq<char>>, Seq<char>>(not_directory_message(cwd)) <==> exists
            && !is_dir,
        forall|p: Seq<char>|
            exists && is_dir && resolved == Some(Ok::<Seq<char>, Seq<char>>(p)) ==> #[trigger] cwd_verdict(
                cwd,
                exists,
                is_dir,
                Some(Ok::<Seq<char>, Seq<char>>(p)),
            ) == Ok::<Option<Seq<char>>, Seq<char>>(Some(p)),
        cwd_verdict(cwd, exists, is_dir, resolved) is Ok ==> exists && is_dir && resolved is Some && resolved->0 is Ok
            && cwd_verdict(cwd, exists, is_dir, resolved) == Ok::<Option<Seq<char>>, Seq<char>>(Some(resolved->0->Ok_0)),
        forall|detail: Seq<char>|
            exists && is_dir && resolved == Some(Err::<Seq<char>, Seq<char>>(detail)) ==> cwd_verdict(
                cwd,
                exists,
                is_dir,
                resolved,
            ) == Err::<Option<Seq<char>>, Seq<char>>(#[trigger] (invalid_cwd_prefix() + detail)),
{
    reveal_strlit("Working directory does not exist: ");
    reveal_strlit("Working directory is not a directory: ");
    reveal_strlit("Invalid working directory: ");
    let missing = missing_cwd_message(cwd);
    let not_dir = not_directory_message(cwd);
    assert(missing[0] == 'W' && missing[18] == 'd');
    assert(not_dir[18] == 'i');
    assert(missing != not_dir);
    match resolved {
        Some(Err(detail)) => {
            assert((invalid_cwd_prefix() + detail)[0] == 'I');
        },
        None => {
            assert(invalid_cwd_prefix()[0] == 'I');
        },
        _ => {},
    }
}

} // verus!
