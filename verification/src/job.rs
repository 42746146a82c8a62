use crate::error::{error_detail, owned, policy, SandboxError};
use crate::text::{
    chars_equal, chars_of, decimal, decimal_chars, lemma_lex_le_antisymmetric, lemma_lex_le_total,
    lemma_lex_le_transitive, lex_le, lex_le_chars, split_chars, split_on, string_from_chars,
    utf8_len, utf8_len_upto,
};
use vstd::prelude::*;
use base64::Engine;

verus! {

/// What a launch asks for, as plain values: the command line, the guest
/// environment, the encoded standard input and the limits that the checks
/// read.
pub struct LaunchRequest {
    pub command: String,
    pub args: Vec<String>,
    pub cwd: String,
    pub env: Vec<(String, String)>,
    pub stdin_base64: String,
    pub timeout_ms: u64,
    pub input_bytes: u64,
    pub output_bytes: u64,
}

/// The working directory a job gets when it names none.
pub fn default_cwd() -> (cwd: String)
    ensures
        cwd@ == "/"@,
{
    owned("/")
}

/// An absolute path whose components are the root and plain names only:
/// it starts at `/` and no segment is `..` (empty and `.` segments are
/// normalized away, as `Path::components` does).
pub open spec fn normalized_absolute(path: Seq<char>) -> bool {
    &&& path.len() > 0
    &&& path[0] == '/'
    &&& forall|i: int|
        0 <= i < split_on(path, '/').len() ==> #[trigger] split_on(path, '/')[i] != ".."@
}

fn is_parent_segment(segment: &Vec<char>) -> (b: bool)
    ensures
        b == (segment@ == ".."@),
{
    let dots = chars_of("..");
    chars_equal(segment, &dots)
}

fn is_normalized_absolute(path: &str) -> (b: bool)
    ensures
        b == normalized_absolute(path@),
{
    let chars = chars_of(path);
    if chars.len() == 0 || chars[0] != '/' {
        return false;
    }
    let segments = split_chars(&chars, '/');
    let ghost views = segments@.map_values(|w: Vec<char>| w@);
    let mut i: usize = 0;
    while i < segments.len()
        invariant
            views == split_on(chars@, '/'),
            views == segments@.map_values(|w: Vec<char>| w@),
            views.len() == segments.len(),
            chars@ == path@,
            i <= segments.len(),
            forall|j: int| 0 <= j < i ==> #[trigger] views[j] != ".."@,
        decreases segments.len() - i,
    {
        assert(views[i as int] == segments@[i as int]@);
        if is_parent_segment(&segments[i]) {
            return false;
        }
        i += 1;
    }
    true
}

/// The message that rejects a guest path.
pub open spec fn guest_path_message(label: Seq<char>) -> Seq<char> {
    label + " must be a normalized absolute path"@
}

pub fn validate_guest_path(path: &str, label: &str) -> (out: Result<(), SandboxError>)
    ensures
        match out {
            Ok(()) => normalized_absolute(path@),
            Err(e) => !normalized_absolute(path@) && e is PolicyViolation && error_detail(&e)
                == guest_path_message(label@),
        },
{
    if !is_normalized_absolute(path) {
        let mut message = chars_of(label);
        let mut tail = chars_of(" must be a normalized absolute path");
        message.append(&mut tail);
        return Err(SandboxError::PolicyViolation(string_from_chars(&message)));
    }
    Ok(())
}

pub open spec fn ascii_letter_or_underscore(c: char) -> bool {
    ('A' <= c <= 'Z') || ('a' <= c <= 'z') || c == '_'
}

pub open spec fn ascii_alphanumeric_or_underscore(c: char) -> bool {
    ascii_letter_or_underscore(c) || ('0' <= c <= '9')
}

/// A portable environment variable name: a letter or `_`, then letters,
/// digits and `_`.
pub open spec fn environment_name(name: Seq<char>) -> bool {
    &&& name.len() > 0
    &&& ascii_letter_or_underscore(name[0])
    &&& forall|i: int| 1 <= i < name.len() ==> ascii_alphanumeric_or_underscore(#[trigger] name[i])
}

pub fn valid_environment_name(name: &str) -> (b: bool)
    ensures
        b == environment_name(name@),
{
    let chars = chars_of(name);
    if chars.len() == 0 {
        return false;
    }
    let first = chars[0];
    if !(('A' <= first && first <= 'Z') || ('a' <= first && first <= 'z') || first == '_') {
        return false;
    }
    let mut i: usize = 1;
    while i < chars.len()
        invariant
            1 <= i <= chars.len(),
            chars@ == name@,
            forall|j: int| 1 <= j < i ==> ascii_alphanumeric_or_underscore(#[trigger] chars@[j]),
        decreases chars.len() - i,
    {
        let c = chars[i];
        if !(('A' <= c && c <= 'Z') || ('a' <= c && c <= 'z') || c == '_' || ('0' <= c && c
            <= '9')) {
            return false;
        }
        i += 1;
    }
    true
}

pub open spec fn has_nul(s: Seq<char>) -> bool {
    exists|i: int| 0 <= i < s.len() && s[i] == '\0'
}

fn contains_nul(s: &str) -> (b: bool)
    ensures
        b == has_nul(s@),
{
    let chars = chars_of(s);
    let mut i: usize = 0;
    while i < chars.len()
        invariant
            i <= chars.len(),
            chars@ == s@,
            forall|j: int| 0 <= j < i ==> chars@[j] != '\0',
        decreases chars.len() - i,
    {
        if chars[i] == '\0' {
            return true;
        }
        i += 1;
    }
    false
}

/// The most environment variables a job may set.
pub const MAX_ENVIRONMENT_VARIABLES: usize = 128;

/// The most bytes one variable's name and value may take together.
pub const MAX_ENVIRONMENT_ENTRY_BYTES: u64 = 16384;

/// One variable is acceptable: a valid name, a value without NUL, and a
/// bounded size.
pub open spec fn environment_entry_ok(name: Seq<char>, value: Seq<char>) -> bool {
    &&& environment_name(name)
    &&& !has_nul(value)
    &&& utf8_len(name) + utf8_len(value) <= MAX_ENVIRONMENT_ENTRY_BYTES
}

pub open spec fn environment_ok(env: Seq<(String, String)>) -> bool {
    &&& env.len() <= MAX_ENVIRONMENT_VARIABLES
    &&& forall|i: int| 0 <= i < env.len() ==> environment_entry_ok(#[trigger] env[i].0@, env[i].1@)
}

fn environment_valid(env: &Vec<(String, String)>) -> (b: bool)
    ensures
        b == environment_ok(env@),
{
    if env.len() > MAX_ENVIRONMENT_VARIABLES {
        return false;
    }
    let mut i: usize = 0;
    while i < env.len()
        invariant
            i <= env.len() <= MAX_ENVIRONMENT_VARIABLES,
            forall|j: int| 0 <= j < i ==> environment_entry_ok(#[trigger] env@[j].0@, env@[j].1@),
        decreases env.len() - i,
    {
        let name = env[i].0.as_str();
        let value = env[i].1.as_str();
        assert(name@ == env@[i as int].0@);
        assert(value@ == env@[i as int].1@);
        if !valid_environment_name(name) || contains_nul(value) {
            return false;
        }
        let name_len = match utf8_len_upto(name, MAX_ENVIRONMENT_ENTRY_BYTES) {
            Some(n) => n,
            None => return false,
        };
        if utf8_len_upto(value, MAX_ENVIRONMENT_ENTRY_BYTES - name_len).is_none() {
            return false;
        }
        i += 1;
    }
    true
}

/// The variables every job starts with, before its own.
pub open spec fn base_environment() -> Seq<(Seq<char>, Seq<char>)> {
    seq![
        ("PATH"@, "/usr/local/sbin:/usr/local/bin:/usr/sbin:/usr/bin:/sbin:/bin"@),
        ("HOME"@, "/tmp"@),
        ("LANG"@, "C.UTF-8"@),
    ]
}

/// Each name bound to the last value given for it.
pub open spec fn environment_map(entries: Seq<(Seq<char>, Seq<char>)>) -> Map<Seq<char>, Seq<char>>
    decreases entries.len(),
{
    if entries.len() == 0 {
        Map::empty()
    } else {
        environment_map(entries.drop_last()).insert(entries.last().0, entries.last().1)
    }
}

pub open spec fn pairs_view(pairs: Seq<(String, String)>) -> Seq<(Seq<char>, Seq<char>)> {
    pairs.map_values(|p: (String, String)| (p.0@, p.1@))
}

/// The names strictly ascend, in the order of `str`.
pub open spec fn names_ascending(pairs: Seq<(Seq<char>, Seq<char>)>) -> bool {
    forall|i: int, j: int|
        0 <= i < j < pairs.len() ==> lex_le(#[trigger] pairs[i].0, #[trigger] pairs[j].0)
            && pairs[i].0 != pairs[j].0
}

/// `pairs` lists exactly the bindings of `m`.
pub open spec fn lists_map(pairs: Seq<(Seq<char>, Seq<char>)>, m: Map<Seq<char>, Seq<char>>) -> bool {
    &&& forall|i: int|
        0 <= i < pairs.len() ==> m.contains_key(#[trigger] pairs[i].0) && m[pairs[i].0]
            == pairs[i].1
    &&& forall|k: Seq<char>|
        #[trigger] m.contains_key(k) ==> exists|i: int| 0 <= i < pairs.len() && pairs[i].0 == k
}

/// Where `name` belongs among ascending names: after every smaller one.
fn insertion_point(pairs: &Vec<(String, String)>, name: &Vec<char>) -> (k: usize)
    requires
        names_ascending(pairs_view(pairs@)),
    ensures
        k <= pairs@.len(),
        forall|j: int|
            0 <= j < k ==> lex_le(#[trigger] pairs_view(pairs@)[j].0, name@)
                && pairs_view(pairs@)[j].0 != name@,
        k < pairs@.len() ==> lex_le(name@, pairs_view(pairs@)[k as int].0),
{
    let ghost v = pairs_view(pairs@);
    proof {
        lemma_lex_le_total(name@, name@);
    }
    let mut k: usize = 0;
    while k < pairs.len()
        invariant
            k <= pairs@.len(),
            v == pairs_view(pairs@),
            lex_le(name@, name@),
            forall|j: int| 0 <= j < k ==> lex_le(#[trigger] v[j].0, name@) && v[j].0 != name@,
        decreases pairs.len() - k,
    {
        let current = chars_of(pairs[k].0.as_str());
        assert(current@ == v[k as int].0);
        if lex_le_chars(name, &current) {
            return k;
        }
        proof {
            lemma_lex_le_total(name@, current@);
        }
        k += 1;
    }
    k
}

/// Binds `name` to `value` in an ascending listing: replaces the value of
/// an equal name, or inserts the pair where its name belongs.
fn bind_sorted(pairs: &mut Vec<(String, String)>, name: String, value: String, Ghost(m): Ghost<
    Map<Seq<char>, Seq<char>>,
>)
    requires
        names_ascending(pairs_view(old(pairs)@)),
        lists_map(pairs_view(old(pairs)@), m),
    ensures
        names_ascending(pairs_view(final(pairs)@)),
        lists_map(pairs_view(final(pairs)@), m.insert(name@, value@)),
{
    let ghost before = pairs_view(pairs@);
    let ghost n = name@;
    let ghost val = value@;
    let key = chars_of(name.as_str());
    let k = insertion_point(pairs, &key);
    let same = if k < pairs.len() {
        let current = chars_of(pairs[k].0.as_str());
        chars_equal(&current, &key)
    } else {
        false
    };
    if same {
        pairs.set(k, (name, value));
        proof {
            let after = pairs_view(pairs@);
            assert(after =~= before.update(k as int, (n, val)));
            assert(before[k as int].0 == n);
            assert forall|i: int| 0 <= i < after.len() && i != k implies after[i].0 != n by {
                if i < k {
                    assert(before[i].0 != before[k as int].0);
                } else {
                    assert(before[k as int].0 != before[i].0);
                }
            }
            let m2 = m.insert(n, val);
            assert forall|x: Seq<char>| #[trigger] m2.contains_key(x) implies exists|i: int|
                0 <= i < after.len() && after[i].0 == x by {
                if x == n {
                    assert(after[k as int].0 == x);
                } else {
                    let i = choose|i: int| 0 <= i < before.len() && before[i].0 == x;
                    assert(after[i].0 == x);
                }
            }
        }
    } else {
        pairs.insert(k, (name, value));
        proof {
            let after = pairs_view(pairs@);
            assert(after =~= before.insert(k as int, (n, val)));
            assert forall|i: int| 0 <= i < before.len() implies #[trigger] before[i].0 != n by {
                if i > k {
                    assert(lex_le(before[k as int].0, before[i].0));
                    if before[i].0 == n {
                        lemma_lex_le_antisymmetric(n, before[k as int].0);
                    }
                }
            }
            assert forall|i: int, j: int| 0 <= i < j < after.len() implies lex_le(
                #[trigger] after[i].0,
                #[trigger] after[j].0,
            ) && after[i].0 != after[j].0 by {
                if j == k {
                    assert(after[i] == before[i]);
                } else if i == k {
                    assert(after[j] == before[j - 1]);
                    assert(lex_le(n, before[k as int].0));
                    if j - 1 > k {
                        lemma_lex_le_transitive(n, before[k as int].0, before[j - 1].0);
                    }
                    assert(before[j - 1].0 != n);
                } else if j < k {
                    assert(after[i] == before[i] && after[j] == before[j]);
                } else if i < k {
                    assert(after[i] == before[i] && after[j] == before[j - 1]);
                    assert(lex_le(before[i].0, n));
                    assert(lex_le(n, before[k as int].0));
                    lemma_lex_le_transitive(before[i].0, n, before[k as int].0);
                    if j - 1 > k {
                        lemma_lex_le_transitive(before[i].0, before[k as int].0, before[j - 1].0);
                    }
                } else {
                    assert(after[i] == before[i - 1] && after[j] == before[j - 1]);
                }
            }
            let m2 = m.insert(n, val);
            assert forall|i: int| 0 <= i < after.len() implies m2.contains_key(
                #[trigger] after[i].0,
            ) && m2[after[i].0] == after[i].1 by {
                if i < k {
                    assert(after[i] == before[i]);
                } else if i > k {
                    assert(after[i] == before[i - 1]);
                }
            }
            assert forall|x: Seq<char>| #[trigger] m2.contains_key(x) implies exists|i: int|
                0 <= i < after.len() && after[i].0 == x by {
                if x == n {
                    assert(after[k as int].0 == x);
                } else {
                    let i = choose|i: int| 0 <= i < before.len() && before[i].0 == x;
                    if i < k {
                        assert(after[i].0 == x);
                    } else {
                        assert(after[i + 1].0 == x);
                    }
                }
            }
        }
    }
}

/// The environment a job's command starts with: the base variables,
/// overridden and extended by the job's own, later entries winning, listed
/// by ascending name.
pub fn guest_environment(env: &Vec<(String, String)>) -> (out: Vec<(String, String)>)
    ensures
        names_ascending(pairs_view(out@)),
        lists_map(pairs_view(out@), environment_map(base_environment() + pairs_view(env@))),
{
    let ghost all = base_environment() + pairs_view(env@);
    let mut out: Vec<(String, String)> = Vec::new();
    assert(lists_map(pairs_view(out@), environment_map(all.take(0))));
    bind_sorted(
        &mut out,
        owned("PATH"),
        owned("/usr/local/sbin:/usr/local/bin:/usr/sbin:/usr/bin:/sbin:/bin"),
        Ghost(environment_map(all.take(0))),
    );
    assert(all.take(1).drop_last() =~= all.take(0));
    bind_sorted(&mut out, owned("HOME"), owned("/tmp"), Ghost(environment_map(all.take(1))));
    assert(all.take(2).drop_last() =~= all.take(1));
    bind_sorted(&mut out, owned("LANG"), owned("C.UTF-8"), Ghost(environment_map(all.take(2))));
    assert(all.take(3).drop_last() =~= all.take(2));
    let mut i: usize = 0;
    while i < env.len()
        invariant
            i <= env@.len(),
            all == base_environment() + pairs_view(env@),
            names_ascending(pairs_view(out@)),
            lists_map(pairs_view(out@), environment_map(all.take(3 + i))),
        decreases env.len() - i,
    {
        let name = env[i].0.clone();
        let value = env[i].1.clone();
        assert(all.take(3 + i + 1).drop_last() =~= all.take(3 + i));
        assert(all[3 + i] == (name@, value@));
        bind_sorted(&mut out, name, value, Ghost(environment_map(all.take(3 + i))));
        i += 1;
    }
    assert(all.take(3 + env@.len() as int) =~= all);
    out
}

/// The `NAME=value` strings that a command's environment is made of.
pub fn environment_lines(pairs: &Vec<(String, String)>) -> (out: Vec<String>)
    ensures
        out@.len() == pairs@.len(),
        forall|i: int|
            0 <= i < pairs@.len() ==> #[trigger] out@[i]@ == pairs@[i].0@ + "="@ + pairs@[i].1@,
{
    let mut out: Vec<String> = Vec::new();
    let mut i: usize = 0;
    while i < pairs.len()
        invariant
            i <= pairs@.len(),
            out@.len() == i,
            forall|j: int| 0 <= j < i ==> #[trigger] out@[j]@ == pairs@[j].0@ + "="@ + pairs@[j].1@,
        decreases pairs.len() - i,
    {
        let mut line = chars_of(pairs[i].0.as_str());
        let mut eq = chars_of("=");
        line.append(&mut eq);
        let mut value = chars_of(pairs[i].1.as_str());
        line.append(&mut value);
        out.push(string_from_chars(&line));
        i += 1;
    }
    out
}

/// What the standard base64 engine decodes `text` to; `None` when it
/// rejects it.
pub uninterp spec fn base64_decoded(text: Seq<char>) -> Option<Seq<u8>>;

/// A digit of the standard base64 alphabet: `A`-`Z`, `a`-`z`, `0`-`9`,
/// `+`, `/`.
pub open spec fn base64_digit(i: nat) -> char {
    if i < 26 {
        (0x41 + i) as char
    } else if i < 52 {
        (0x61 + i - 26) as char
    } else if i < 62 {
        (0x30 + i - 52) as char
    } else if i == 62 {
        '+'
    } else {
        '/'
    }
}

/// Standard base64 with padding (RFC 4648): each group of three bytes
/// becomes four digits of six bits each; a last group of one or two bytes
/// is padded with `=` to four characters.
pub open spec fn base64_encode(bytes: Seq<u8>) -> Seq<char>
    decreases bytes.len(),
{
    if bytes.len() == 0 {
        seq![]
    } else if bytes.len() == 1 {
        seq![
            base64_digit((bytes[0] / 4) as nat),
            base64_digit(((bytes[0] % 4) * 16) as nat),
            '=',
            '=',
        ]
    } else if bytes.len() == 2 {
        seq![
            base64_digit((bytes[0] / 4) as nat),
            base64_digit(((bytes[0] % 4) * 16 + bytes[1] / 16) as nat),
            base64_digit(((bytes[1] % 16) * 4) as nat),
            '=',
        ]
    } else {
        seq![
            base64_digit((bytes[0] / 4) as nat),
            base64_digit(((bytes[0] % 4) * 16 + bytes[1] / 16) as nat),
            base64_digit(((bytes[1] % 16) * 4 + bytes[2] / 64) as nat),
            base64_digit((bytes[2] % 64) as nat),
        ] + base64_encode(bytes.skip(3))
    }
}

/// `base64::engine::general_purpose::STANDARD.decode`, with its error as `None`.
#[verifier::external_body]
fn decode_base64(text: &str) -> (out: Option<Vec<u8>>)
    ensures
        match out {
            Some(bytes) => base64_decoded(text@) == Some(bytes@),
            None => base64_decoded(text@) is None,
        },
{
    base64::engine::general_purpose::STANDARD.decode(text).ok()
}

/// `base64::engine::general_purpose::STANDARD.encode`: standard base64 with
/// padding.
#[verifier::external_body]
fn encode_base64(bytes: &[u8]) -> (out: String)
    requires
        bytes@.len() <= usize::MAX / 2,
    ensures
        out@ == base64_encode(bytes@),
{
    base64::engine::general_purpose::STANDARD.encode(bytes)
}

pub open spec fn command_args_have_nul(request: LaunchRequest) -> bool {
    has_nul(request.command@) || exists|i: int|
        0 <= i < request.args@.len() && has_nul(#[trigger] request.args@[i]@)
}

/// Which check refuses a launch request, in the order they are made, with the
/// message it gives; `Ok` holds the decoded standard input.
pub open spec fn launch_request_outcome(request: LaunchRequest) -> Result<Seq<u8>, Seq<char>> {
    if request.timeout_ms == 0 || request.output_bytes == 0 {
        Err("timeout and output limits must be positive"@)
    } else if !normalized_absolute(request.command@) {
        Err("command must be a normalized absolute path"@)
    } else if command_args_have_nul(request) {
        Err("command and arguments may not contain NUL"@)
    } else if !normalized_absolute(request.cwd@) {
        Err(guest_path_message("working directory"@))
    } else if !environment_ok(request.env@) {
        Err("environment variables are invalid or too large"@)
    } else {
        match base64_decoded(request.stdin_base64@) {
            None => Err("stdin is not valid base64"@),
            Some(stdin) => if stdin.len() > request.input_bytes {
                Err("stdin exceeds the input limit"@)
            } else {
                Ok(stdin)
            },
        }
    }
}

/// Checks a launch request as far as plain values decide it, and decodes
/// its standard input.
pub fn validate_spec(request: &LaunchRequest) -> (out: Result<Vec<u8>, SandboxError>)
    ensures
        match (out, launch_request_outcome(*request)) {
            (Ok(stdin), Ok(expected)) => stdin@ == expected,
            (Err(e), Err(message)) => e is PolicyViolation && error_detail(&e) == message,
            _ => false,
        },
{
    if request.timeout_ms == 0 || request.output_bytes == 0 {
        return Err(policy("timeout and output limits must be positive"));
    }
    if !is_normalized_absolute(request.command.as_str()) {
        return Err(policy("command must be a normalized absolute path"));
    }
    if contains_nul(request.command.as_str()) {
        return Err(policy("command and arguments may not contain NUL"));
    }
    let mut i: usize = 0;
    while i < request.args.len()
        invariant
            i <= request.args.len(),
            request.timeout_ms != 0 && request.output_bytes != 0,
            normalized_absolute(request.command@),
            !has_nul(request.command@),
            forall|j: int| 0 <= j < i ==> !has_nul(#[trigger] request.args@[j]@),
        decreases request.args.len() - i,
    {
        if contains_nul(request.args[i].as_str()) {
            assert(has_nul(request.args@[i as int]@));
            assert(command_args_have_nul(*request));
            return Err(policy("command and arguments may not contain NUL"));
        }
        i += 1;
    }
    assert(!command_args_have_nul(*request));
    if let Err(e) = validate_guest_path(request.cwd.as_str(), "working directory") {
        return Err(e);
    }
    if !environment_valid(&request.env) {
        return Err(policy("environment variables are invalid or too large"));
    }
    let stdin = match decode_base64(request.stdin_base64.as_str()) {
        Some(bytes) => bytes,
        None => return Err(policy("stdin is not valid base64")),
    };
    if stdin.len() as u64 > request.input_bytes {
        return Err(policy("stdin exceeds the input limit"));
    }
    Ok(stdin)
}


/// The bytes of output still allowed, shared by both output streams of a job.
pub struct OutputBudget {
    remaining: u64,
}

impl OutputBudget {
    pub closed spec fn remaining_spec(&self) -> u64 {
        self.remaining
    }

    pub fn new(limit: u64) -> (b: Self)
        ensures
            b.remaining_spec() == limit,
    {
        OutputBudget { remaining: limit }
    }

    pub fn remaining(&self) -> (r: u64)
        ensures
            r == self.remaining_spec(),
    {
        self.remaining
    }
}

pub open spec fn min_u64(a: u64, b: u64) -> u64 {
    if a <= b {
        a
    } else {
        b
    }
}

/// Takes up to `requested` bytes from the shared budget and says how many
/// may be kept: all of them while the budget lasts, the rest of it after.
pub fn claim_output_bytes(budget: &mut OutputBudget, requested: usize) -> (kept: usize)
    ensures
        kept as u64 == min_u64(requested as u64, old(budget).remaining_spec()),
        final(budget).remaining_spec() == old(budget).remaining_spec() - kept,
{
    let requested = requested as u64;
    let claimed = if requested <= budget.remaining {
        requested
    } else {
        budget.remaining
    };
    budget.remaining = budget.remaining - claimed;
    claimed as usize
}

/// The bytes kept from a series of reads of the given sizes, against a
/// budget of `remaining`, and the budget left afterwards.
pub open spec fn claims(remaining: u64, reads: Seq<u64>) -> (nat, u64)
    decreases reads.len(),
{
    if reads.len() == 0 {
        (0, remaining)
    } else {
        let (kept, left) = claims(remaining, reads.drop_last());
        let now = min_u64(reads.last(), left);
        ((kept + now) as nat, (left - now) as u64)
    }
}

/// However the reads of both streams interleave, the bytes kept never exceed
/// the one aggregate limit, and what is kept plus what is left is that limit.
pub proof fn lemma_output_never_exceeds_limit(limit: u64, reads: Seq<u64>)
    ensures
        claims(limit, reads).0 + claims(limit, reads).1 == limit,
        claims(limit, reads).0 <= limit,
    decreases reads.len(),
{
    if reads.len() > 0 {
        lemma_output_never_exceeds_limit(limit, reads.drop_last());
    }
}

/// What watching a running job does next.
#[derive(Debug, Clone, Copy, PartialEq, Eq, Structural)]
pub enum WatchStep {
    /// The job ended by itself: collect its status.
    Collect,
    /// Kill the job's process tree; `timed_out` says whether its time ran out.
    Kill { timed_out: bool },
    /// Keep waiting.
    Wait,
}

/// One round of watching a job: a job that ended is collected; one that ran
/// out of time, or whose output went over its limit, is killed; any other
/// keeps running.
pub open spec fn watch_spec(exited: bool, elapsed_ms: u64, timeout_ms: u64, output_exceeded: bool) -> WatchStep {
    if exited {
        WatchStep::Collect
    } else if elapsed_ms >= timeout_ms || output_exceeded {
        WatchStep::Kill { timed_out: elapsed_ms >= timeout_ms }
    } else {
        WatchStep::Wait
    }
}

pub fn watch_step(exited: bool, elapsed_ms: u64, timeout_ms: u64, output_exceeded: bool) -> (step:
    WatchStep)
    ensures
        step == watch_spec(exited, elapsed_ms, timeout_ms, output_exceeded),
{
    if exited {
        WatchStep::Collect
    } else if elapsed_ms >= timeout_ms || output_exceeded {
        WatchStep::Kill { timed_out: elapsed_ms >= timeout_ms }
    } else {
        WatchStep::Wait
    }
}

/// The exit code and the signal that a wait status reports; at most one
/// of them is present.
pub open spec fn wait_outcome(status: i32) -> (Option<i32>, Option<i32>) {
    if status & 0x7f == 0 {
        (Some((status >> 8) & 0xff), None)
    } else if 1 <= (status & 0x7f) && (status & 0x7f) <= 126 {
        (None, Some(status & 0x7f))
    } else {
        (None, None)
    }
}

/// A job that exits with code `code` (0 to 255) leaves the wait status
/// `code << 8`, which reads back as exactly that code, all eight bits of it,
/// and no signal; a job killed by signal `sig` (1 to 126) leaves the status
/// `sig`, which reads back as that signal and no exit code.
pub proof fn lemma_wait_status_reads_back(code: u8, sig: u8)
    ensures
        wait_outcome((code as i32) << 8) == (Some(code as i32), None::<i32>),
        1 <= sig <= 126 ==> wait_outcome(sig as i32) == (None::<i32>, Some(sig as i32)),
{
    let c = code as i32;
    let st = c << 8;
    assert(st & 0x7f == 0 && (st >> 8) & 0xff == c) by (bit_vector)
        requires
            0 <= c <= 255,
            st == c << 8,
    ;
    let g = sig as i32;
    assert(1 <= g <= 126 ==> g & 0x7f == g) by (bit_vector);
}

/// What `WIFEXITED`, `WEXITSTATUS`, `WIFSIGNALED` and `WTERMSIG` read from
/// a Linux wait status.
pub fn exit_outcome(status: i32) -> (out: (Option<i32>, Option<i32>))
    ensures
        out == wait_outcome(status),
{
    let low = status & 0x7f;
    assert(0 <= low <= 0x7f) by (bit_vector)
        requires
            low == status & 0x7f,
    ;
    if low == 0 {
        (Some((status >> 8) & 0xff), None)
    } else if low <= 126 {
        (None, Some(low))
    } else {
        (None, None)
    }
}

/// Which isolation controls a job ran under.
#[derive(Debug, Clone, Copy, PartialEq, Eq, Structural)]
pub struct IsolationReport {
    pub user_namespace: bool,
    pub pid_namespace: bool,
    pub mount_namespace: bool,
    pub network_namespace: bool,
    pub ipc_namespace: bool,
    pub uts_namespace: bool,
    pub cgroup_namespace: bool,
    pub cgroup_v2: bool,
    pub seccomp: bool,
    pub no_new_privileges: bool,
    pub capabilities_dropped: bool,
    pub pivot_root: bool,
}

pub open spec fn all_controls(r: IsolationReport) -> bool {
    &&& r.user_namespace
    &&& r.pid_namespace
    &&& r.mount_namespace
    &&& r.network_namespace
    &&& r.ipc_namespace
    &&& r.uts_namespace
    &&& r.cgroup_namespace
    &&& r.cgroup_v2
    &&& r.seccomp
    &&& r.no_new_privileges
    &&& r.capabilities_dropped
    &&& r.pivot_root
}

impl IsolationReport {
    /// The report of a job that ran: every control is mandatory, so every
    /// one of them is on.
    pub fn complete() -> (r: Self)
        ensures
            all_controls(r),
    {
        IsolationReport {
            user_namespace: true,
            pid_namespace: true,
            mount_namespace: true,
            network_namespace: true,
            ipc_namespace: true,
            uts_namespace: true,
            cgroup_namespace: true,
            cgroup_v2: true,
            seccomp: true,
            no_new_privileges: true,
            capabilities_dropped: true,
            pivot_root: true,
        }
    }
}

#[derive(Debug, Clone, Copy, PartialEq, Eq, Structural)]
pub struct JobMetrics {
    pub duration_ms: u64,
    pub peak_memory_bytes: u64,
}

/// What a finished job reports.
#[derive(Debug)]
pub struct LaunchResult {
    pub exit_code: Option<i32>,
    pub signal: Option<i32>,
    pub timed_out: bool,
    pub output_limit_exceeded: bool,
    pub stdout_base64: String,
    pub stderr_base64: String,
    pub isolation: IsolationReport,
    pub metrics: JobMetrics,
}

/// The report of a finished job from its wait status and what was observed
/// while it ran; both output streams are encoded in standard base64.
pub fn launch_result(
    status: i32,
    timed_out: bool,
    output_limit_exceeded: bool,
    stdout: &[u8],
    stderr: &[u8],
    metrics: JobMetrics,
) -> (r: LaunchResult)
    requires
        stdout@.len() <= usize::MAX / 2,
        stderr@.len() <= usize::MAX / 2,
    ensures
        (r.exit_code, r.signal) == wait_outcome(status),
        r.timed_out == timed_out,
        r.output_limit_exceeded == output_limit_exceeded,
        r.stdout_base64@ == base64_encode(stdout@),
        r.stderr_base64@ == base64_encode(stderr@),
        all_controls(r.isolation),
        r.metrics == metrics,
{
    let (exit_code, signal) = exit_outcome(status);
    LaunchResult {
        exit_code,
        signal,
        timed_out,
        output_limit_exceeded,
        stdout_base64: encode_base64(stdout),
        stderr_base64: encode_base64(stderr),
        isolation: IsolationReport::complete(),
        metrics,
    }
}


/// The host directory that becomes a job's new root while it is built.
pub open spec fn staging_root_spec(job_id: Seq<char>, pid: u32) -> Seq<char> {
    "/tmp/micro-sandbox-"@ + job_id + "-"@ + decimal(pid as nat)
}

pub fn staging_root_path(job_id: &str, pid: u32) -> (path: String)
    ensures
        path@ == staging_root_spec(job_id@, pid),
{
    let mut out = chars_of("/tmp/micro-sandbox-");
    let mut id = chars_of(job_id);
    out.append(&mut id);
    let mut dash = chars_of("-");
    out.append(&mut dash);
    let mut digits = decimal_chars(pid as u64);
    out.append(&mut digits);
    string_from_chars(&out)
}

/// The single-entry ID map that makes `id` outside the namespace root
/// inside it: `0 <id> 1`.
pub open spec fn id_map_spec(id: u32) -> Seq<char> {
    "0 "@ + decimal(id as nat) + " 1\n"@
}

pub fn id_map_line(id: u32) -> (line: String)
    ensures
        line@ == id_map_spec(id),
{
    let mut out = chars_of("0 ");
    let mut digits = decimal_chars(id as u64);
    out.append(&mut digits);
    let mut tail = chars_of(" 1\n");
    out.append(&mut tail);
    string_from_chars(&out)
}

} // verus!
