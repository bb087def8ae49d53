//! CLI provider: drives an external command-line LLM tool. The command
//! template is split on whitespace (no shell) and `{prompt}` is substituted
//! inside the argument that names it, so the prompt is always one argument.
use vstd::prelude::*;
use crate::llm::LlmError;
use crate::path::{file_stem, native_path, path_file_stem};
use crate::text::{
    chars_eq_ignore_ascii_case, chars_eq_str, chars_of, contains_chars, contains_seq,
    eq_ignore_ascii_case, replace_all, replace_chars, split_whitespace, split_whitespace_chars,
    string_of,
};

verus! {

/// An LLM provider backed by an external command-line tool.
pub struct CliProvider {
    /// Raw command template, e.g. `gemini -p {prompt} --model gemini-2.5-pro`.
    pub command_template: String,
    /// Reported model identifier.
    pub model_identifier: String,
    /// Per-invocation timeout, in seconds.
    pub timeout_secs: u64,
}

/// Seconds of the default invocation timeout.
pub const DEFAULT_CLI_TIMEOUT_SECS: u64 = 120;

impl CliProvider {
    /// Build a CLI provider from a command template and a reported model id,
    /// with the default timeout.
    pub fn new(command_template: &str, model_identifier: &str) -> (p: Self)
        ensures
            p.command_template@ == command_template@,
            p.model_identifier@ == model_identifier@,
            p.timeout_secs == DEFAULT_CLI_TIMEOUT_SECS,
    {
        CliProvider {
            command_template: string_of(chars_of(command_template).as_slice()),
            model_identifier: string_of(chars_of(model_identifier).as_slice()),
            timeout_secs: DEFAULT_CLI_TIMEOUT_SECS,
        }
    }
}

/// A parsed invocation: program, arguments, and the prompt to pipe on stdin
/// when the template has no `{prompt}` placeholder.
pub struct Invocation {
    pub program: String,
    pub args: Vec<String>,
    pub stdin_prompt: Option<String>,
}

/// Whether a program path names the `gemini` CLI (file stem, ASCII case
/// insensitive), under the platform path rule `w`.
pub open spec fn is_gemini_program(program: Seq<char>, w: bool) -> bool {
    match file_stem(native_path(program, w)) {
        Some(stem) => eq_ignore_ascii_case(stem, "gemini"@),
        None => false,
    }
}

/// Template arguments with `{prompt}` substituted.
pub open spec fn substituted_args(words: Seq<Seq<char>>, prompt: Seq<char>) -> Seq<Seq<char>> {
    words.map_values(|w: Seq<char>| replace_all(w, "{prompt}"@, prompt))
}

/// Whether any template argument names `{prompt}`.
pub open spec fn names_prompt(words: Seq<Seq<char>>) -> bool {
    exists|i: int| 0 <= i < words.len() && contains_seq(#[trigger] words[i], "{prompt}"@)
}

/// The invocation a template and prompt give: `None` for an empty template.
/// `w` is the platform path rule used to read the program's file name.
pub open spec fn invocation_spec(template: Seq<char>, prompt: Seq<char>, w: bool) -> Option<(Seq<char>, Seq<Seq<char>>, Option<Seq<char>>)> {
    let words = split_whitespace(template);
    if words.len() == 0 {
        None
    } else {
        let program = words[0];
        let rest = words.drop_first();
        let args = substituted_args(rest, prompt);
        let args = if is_gemini_program(program, w) && !args.contains("--skip-trust"@) {
            args.push("--skip-trust"@)
        } else {
            args
        };
        Some((program, args, if names_prompt(rest) { None } else { Some(prompt) }))
    }
}

/// What [`build_invocation`] returns under path rule `w`.
pub open spec fn invocation_ok(template: Seq<char>, prompt: Seq<char>, r: Result<Invocation, LlmError>, w: bool) -> bool {
    match r {
        Ok(inv) => invocation_spec(template, prompt, w) == Some((
            inv.program@,
            inv.args@.map_values(|a: String| a@),
            match inv.stdin_prompt {
                Some(p) => Some(p@),
                None => None::<Seq<char>>,
            },
        )),
        Err(e) => invocation_spec(template, prompt, w) is None && e is InvalidRequest,
    }
}

/// Parse the command template and substitute the prompt. An empty template
/// is an `InvalidRequest` error. The program's file name is read with the
/// platform's path rules.
pub fn build_invocation(template: &str, prompt: &str) -> (r: Result<Invocation, LlmError>)
    ensures
        exists|w: bool| #[trigger] invocation_ok(template@, prompt@, r, w),
{
    let w = crate::path::backslash_separates();
    let r = build_invocation_on(template, prompt, w);
    assert(invocation_ok(template@, prompt@, r, w));
    r
}

/// [`build_invocation`] under path rule `w`.
fn build_invocation_on(template: &str, prompt: &str, w: bool) -> (r: Result<Invocation, LlmError>)
    ensures
        invocation_ok(template@, prompt@, r, w),
{
    let t = chars_of(template);
    let p = chars_of(prompt);
    let words = split_whitespace_chars(t.as_slice());
    let ghost wv = words@.map_values(|w: Vec<char>| w@);
    if words.len() == 0 {
        return Err(LlmError::InvalidRequest {
            message: string_of(chars_of("CLI command template is empty").as_slice()),
        });
    }
    let program = string_of(words[0].as_slice());
    let placeholder = chars_of("{prompt}");
    proof {
        reveal_strlit("{prompt}");
        assert(placeholder@.len() == 8);
    }
    let mut saw_placeholder = false;
    let mut args: Vec<String> = Vec::new();
    let mut i: usize = 1;
    while i < words.len()
        invariant
            1 <= i <= words.len(),
            wv == words@.map_values(|w: Vec<char>| w@),
            placeholder@ == "{prompt}"@,
            placeholder@.len() == 8,
            args@.map_values(|a: String| a@) == substituted_args(wv.subrange(1, i as int), p@),
            saw_placeholder == names_prompt(wv.subrange(1, i as int)),
        decreases words.len() - i,
    {
        let ghost before = args@.map_values(|a: String| a@);
        let w = &words[i];
        if contains_chars(w.as_slice(), placeholder.as_slice()) {
            saw_placeholder = true;
        }
        let replaced = replace_chars(w.as_slice(), placeholder.as_slice(), p.as_slice());
        args.push(string_of(replaced.as_slice()));
        proof {
            assert(args@.map_values(|a: String| a@) =~= before.push(replace_all(wv[i as int], "{prompt}"@, p@)));
            assert(wv.subrange(1, i + 1) =~= wv.subrange(1, i as int).push(wv[i as int]));
            assert(substituted_args(wv.subrange(1, i + 1), p@) =~= substituted_args(wv.subrange(1, i as int), p@).push(replace_all(wv[i as int], "{prompt}"@, p@)));
            let a = wv.subrange(1, i as int);
            let b = wv.subrange(1, i + 1);
            if names_prompt(a) {
                let k = choose|k: int| 0 <= k < a.len() && contains_seq(#[trigger] a[k], "{prompt}"@);
                assert(b[k] == a[k]);
            }
            if contains_seq(wv[i as int], "{prompt}"@) {
                assert(b[b.len() - 1] == wv[i as int]);
            }
            if names_prompt(b) {
                let k = choose|k: int| 0 <= k < b.len() && contains_seq(#[trigger] b[k], "{prompt}"@);
                if k < a.len() {
                    assert(a[k] == b[k]);
                }
            }
        }
        i += 1;
    }
    assert(wv.subrange(1, words.len() as int) =~= wv.drop_first());
    let prog_chars = crate::path::native_chars(program.as_str(), w);
    let is_gemini = match path_file_stem(prog_chars.as_slice()) {
        Some(stem) => chars_eq_ignore_ascii_case(stem.as_slice(), chars_of("gemini").as_slice()),
        None => false,
    };
    let mut has_skip = false;
    let mut j: usize = 0;
    let ghost av = args@.map_values(|a: String| a@);
    while j < args.len()
        invariant
            j <= args.len(),
            av == args@.map_values(|a: String| a@),
            has_skip == exists|k: int| 0 <= k < j && av[k] == "--skip-trust"@,
        decreases args.len() - j,
    {
        let c = chars_of(args[j].as_str());
        assert(c@ == av[j as int]);
        if chars_eq_str(c.as_slice(), "--skip-trust") {
            has_skip = true;
        }
        proof {
            if !has_skip {
                assert forall|k: int| 0 <= k < j + 1 implies av[k] != "--skip-trust"@ by {
                    if k < j {
                    }
                }
            }
        }
        j += 1;
    }
    assert(has_skip == av.contains("--skip-trust"@));
    if is_gemini && !has_skip {
        let ghost before = args@.map_values(|a: String| a@);
        args.push(string_of(chars_of("--skip-trust").as_slice()));
        assert(args@.map_values(|a: String| a@) =~= before.push("--skip-trust"@));
    }
    let stdin_prompt = if saw_placeholder {
        None
    } else {
        Some(string_of(p.as_slice()))
    };
    Ok(Invocation { program, args, stdin_prompt })
}

/// Rough token estimate: a quarter of the character count, at least 1.
pub fn estimate_tokens(s: &str) -> (n: u64)
    ensures
        n == if s@.len() / 4 >= 1 { (s@.len() / 4) as u64 } else { 1u64 },
{
    let c = chars_of(s);
    let q = (c.len() / 4) as u64;
    if q >= 1 { q } else { 1 }
}

} // verus!

verus! {

/// Install and sign-in state of the `gemini` command-line tool.
#[derive(Debug, Clone)]
pub struct GeminiAuthStatus {
    /// A `gemini` program was found on the search path.
    pub cli_installed: bool,
    /// Non-empty OAuth credentials exist.
    pub authenticated: bool,
    /// Signed-in account, when the accounts file names one.
    pub account: Option<String>,
    /// The settings select an auth method, so headless runs can sign in.
    pub headless_ready: bool,
}

/// The auth method the gemini settings document selects:
/// `security.auth.selectedType`, when it is a non-empty string.
pub open spec fn selected_auth_spec(doc: crate::json::JsonNode) -> Option<Seq<char>> {
    match crate::json::json_text(crate::status::get(
        crate::status::get(crate::json::member(doc, "security"@), "auth"@),
        "selectedType"@,
    )) {
        Some(s) => if s.len() > 0 {
            Some(s)
        } else {
            None
        },
        None => None,
    }
}

/// [`selected_auth_spec`] of the settings file's text; `None` when it is
/// not JSON.
pub fn selected_auth(settings: &str) -> (r: Option<String>)
    ensures
        crate::vault::opt_str(r) == match crate::json::json_document(settings@) {
            Some(doc) => selected_auth_spec(doc),
            None => None,
        },
{
    proof {
        reveal_strlit("security");
        reveal_strlit("auth");
        reveal_strlit("selectedType");
    }
    let doc = match crate::json::parse_json(settings) {
        Some(d) => d,
        None => return None,
    };
    let sec = match crate::json::get_member(&doc, "security") {
        Some(s) => s,
        None => return None,
    };
    let auth = match crate::json::get_member(sec, "auth") {
        Some(a) => a,
        None => return None,
    };
    match crate::json::member_text(auth, "selectedType") {
        Some(s) => if s.as_str().is_empty() {
            None
        } else {
            Some(s)
        },
        None => None,
    }
}

/// The signed-in account named by the accounts document: its `active`
/// string, else its `email` string.
pub open spec fn account_spec(doc: crate::json::JsonNode) -> Option<Seq<char>> {
    match crate::json::json_text(crate::json::member(doc, "active"@)) {
        Some(a) => Some(a),
        None => crate::json::json_text(crate::json::member(doc, "email"@)),
    }
}

/// [`account_spec`] of the accounts file's text; `None` when it is not JSON.
pub fn gemini_account(accounts: &str) -> (r: Option<String>)
    ensures
        crate::vault::opt_str(r) == match crate::json::json_document(accounts@) {
            Some(doc) => account_spec(doc),
            None => None,
        },
{
    proof {
        reveal_strlit("active");
        reveal_strlit("email");
    }
    match crate::json::parse_json(accounts) {
        Some(doc) => match crate::json::member_text(&doc, "active") {
            Some(a) => Some(a),
            None => crate::json::member_text(&doc, "email"),
        },
        None => None,
    }
}

/// The status from what was found on disk: whether the program is on the
/// search path, the size of the OAuth credentials file (when it could be
/// examined), and the texts of the accounts and settings files (when they
/// could be read).
pub fn gemini_auth_status(
    cli_installed: bool,
    oauth_creds_len: Option<u64>,
    accounts: Option<String>,
    settings: Option<String>,
) -> (s: GeminiAuthStatus)
    ensures
        s.cli_installed == cli_installed,
        s.authenticated == (oauth_creds_len matches Some(n) && n > 0),
        crate::vault::opt_str(s.account) == match accounts {
            Some(a) => match crate::json::json_document(a@) {
                Some(doc) => account_spec(doc),
                None => None,
            },
            None => None,
        },
        s.headless_ready == match settings {
            Some(t) => match crate::json::json_document(t@) {
                Some(doc) => selected_auth_spec(doc) is Some,
                None => false,
            },
            None => false,
        },
{
    let authenticated = match oauth_creds_len {
        Some(n) => n > 0,
        None => false,
    };
    let account = match &accounts {
        Some(a) => gemini_account(a.as_str()),
        None => None,
    };
    let headless_ready = match &settings {
        Some(t) => selected_auth(t.as_str()).is_some(),
        None => false,
    };
    GeminiAuthStatus { cli_installed, authenticated, account, headless_ready }
}

} // verus!

verus! {

/// The prompt handed to a command-line tool: the system prompt (when
/// non-empty) and then each message's content, with a blank line between
/// each.
pub open spec fn compose_spec(system_prompt: Option<Seq<char>>, ms: Seq<crate::llm::Message>) -> Seq<char> {
    let first: Seq<Seq<char>> = match system_prompt {
        Some(s) => if s.len() > 0 { seq![s] } else { Seq::empty() },
        None => Seq::empty(),
    };
    crate::llm_wire::join_blank(first + ms.map_values(|m: crate::llm::Message| m.content@))
}

/// [`compose_spec`].
pub fn compose_prompt(system_prompt: &Option<String>, messages: &Vec<crate::llm::Message>) -> (r: String)
    ensures
        r@ == compose_spec(crate::vault::opt_str(*system_prompt), messages@),
{
    let mut parts: Vec<Vec<char>> = Vec::new();
    match system_prompt {
        Some(s) => if !s.as_str().is_empty() {
            parts.push(chars_of(s.as_str()));
        },
        None => {},
    }
    let ghost first = parts@.map_values(|p: Vec<char>| p@);
    let mut i: usize = 0;
    while i < messages.len()
        invariant
            i <= messages.len(),
            parts@.map_values(|p: Vec<char>| p@) == first + messages@.subrange(0, i as int).map_values(
                |m: crate::llm::Message| m.content@,
            ),
        decreases messages.len() - i,
    {
        let ghost before = parts@;
        parts.push(chars_of(messages[i].content.as_str()));
        proof {
            assert(messages@.subrange(0, i + 1).map_values(|m: crate::llm::Message| m.content@)
                =~= messages@.subrange(0, i as int).map_values(|m: crate::llm::Message| m.content@).push(
                messages@[i as int].content@,
            ));
            assert(parts@.map_values(|p: Vec<char>| p@) =~= before.map_values(|p: Vec<char>| p@).push(
                messages@[i as int].content@,
            ));
        }
        i += 1;
    }
    proof {
        assert(messages@.subrange(0, messages.len() as int) =~= messages@);
        let sp = crate::vault::opt_str(*system_prompt);
        let f2: Seq<Seq<char>> = match sp {
            Some(s) => if s.len() > 0 { seq![s] } else { Seq::empty() },
            None => Seq::empty(),
        };
        assert(first =~= f2);
    }
    let mut out: Vec<char> = Vec::new();
    let mut k: usize = 0;
    let ghost all = parts@.map_values(|p: Vec<char>| p@);
    while k < parts.len()
        invariant
            k <= parts.len(),
            all == parts@.map_values(|p: Vec<char>| p@),
            out@ == crate::llm_wire::join_blank(all.subrange(0, k as int)),
        decreases parts.len() - k,
    {
        let ghost prev = out@;
        if k > 0 {
            out.push('\n');
            out.push('\n');
        }
        let mut c = copy_chars_vec(&parts[k]);
        out.append(&mut c);
        proof {
            let s = all.subrange(0, k + 1);
            assert(s.drop_last() =~= all.subrange(0, k as int));
            assert(s.last() == parts@[k as int]@);
            if k == 0 {
                assert(out@ =~= crate::llm_wire::join_blank(s));
            } else {
                assert(out@ =~= prev + seq!['\n', '\n'] + s.last());
            }
        }
        k += 1;
    }
    assert(all.subrange(0, parts.len() as int) =~= all);
    string_of(out.as_slice())
}

fn copy_chars_vec(v: &Vec<char>) -> (r: Vec<char>)
    ensures
        r@ == v@,
{
    crate::path::copy_chars(v.as_slice())
}

/// Decimal text of a signed number.
pub open spec fn int_text(v: int) -> Seq<char> {
    if v < 0 {
        seq!['-'] + crate::text::decimal((-v) as nat)
    } else {
        crate::text::decimal(v as nat)
    }
}

fn int_chars(v: i32) -> (r: Vec<char>)
    ensures
        r@ == int_text(v as int),
{
    if v < 0 {
        let mut out: Vec<char> = Vec::new();
        out.push('-');
        let m: u64 = (-(v as i64)) as u64;
        let mut d = crate::text::decimal_chars(m);
        out.append(&mut d);
        out
    } else {
        crate::text::decimal_chars(v as u64)
    }
}

fn quoted_program(lead: &str, program: &str, tail: &str) -> (r: Vec<char>)
    ensures
        r@ == lead@ + seq!['\''] + program@ + seq!['\''] + tail@,
{
    let mut v = chars_of(lead);
    v.push('\'');
    let mut p = chars_of(program);
    v.append(&mut p);
    v.push('\'');
    let mut t = chars_of(tail);
    v.append(&mut t);
    v
}

/// The result of a finished tool run: on failure, an error naming the
/// program, its exit code (`-1` when killed by a signal) and its trimmed
/// standard error (or `(no stderr)`); on success, its trimmed standard
/// output, which must not be empty.
pub fn cli_output(program: &str, success: bool, code: Option<i32>, stdout: &[u8], stderr: &[u8]) -> (r: Result<String, crate::llm::LlmError>)
    ensures
        !success ==> (r matches Err(crate::llm::LlmError::Internal { message }) && message@ == "CLI '"@ + program@
            + "' exited "@ + int_text(match code { Some(c) => c as int, None => -1 }) + ": "@ + (if crate::vault::trim_ws(
            crate::text::utf8_lossy(stderr@),
        ).len() == 0 {
            "(no stderr)"@
        } else {
            crate::vault::trim_ws(crate::text::utf8_lossy(stderr@))
        })),
        success && crate::vault::trim_ws(crate::text::utf8_lossy(stdout@)).len() == 0 ==> (r matches Err(
            crate::llm::LlmError::Internal { message },
        ) && message@ == "CLI '"@ + program@ + "' produced no output"@),
        success && crate::vault::trim_ws(crate::text::utf8_lossy(stdout@)).len() > 0 ==> (r matches Ok(c) && c@
            == crate::vault::trim_ws(crate::text::utf8_lossy(stdout@))),
{
    proof {
        reveal_strlit("CLI '");
        reveal_strlit("CLI ");
        reveal_strlit("' exited ");
        reveal_strlit(" exited ");
        reveal_strlit(": ");
        reveal_strlit("(no stderr)");
        reveal_strlit("' produced no output");
        reveal_strlit(" produced no output");
        assert("CLI '"@ =~= "CLI "@ + seq!['\'']);
        assert("' exited "@ =~= seq!['\''] + " exited "@);
        assert("' produced no output"@ =~= seq!['\''] + " produced no output"@);
    }
    if !success {
        let e = crate::text::decode_lossy(stderr);
        let et = crate::vault::trim_chars(e.as_slice());
        let c: i32 = match code {
            Some(c) => c,
            None => -1,
        };
        let mut v = quoted_program("CLI ", program, " exited ");
        let mut n = int_chars(c);
        v.append(&mut n);
        v.push(':');
        v.push(' ');
        if et.len() == 0 {
            let mut d = chars_of("(no stderr)");
            v.append(&mut d);
        } else {
            let mut d = et;
            v.append(&mut d);
        }
        return Err(crate::llm::LlmError::Internal { message: string_of(v.as_slice()) });
    }
    let o = crate::text::decode_lossy(stdout);
    let ot = crate::vault::trim_chars(o.as_slice());
    if ot.len() == 0 {
        let v = quoted_program("CLI ", program, " produced no output");
        return Err(crate::llm::LlmError::Internal { message: string_of(v.as_slice()) });
    }
    Ok(string_of(ot.as_slice()))
}

/// The error of a run that did not finish within `secs` seconds.
pub fn cli_timeout_error(program: &str, secs: u64) -> (e: crate::llm::LlmError)
    ensures
        e matches crate::llm::LlmError::NetworkError { message } && message@ == "CLI '"@ + program@
            + "' timed out after "@ + crate::text::decimal(secs as nat) + seq!['s'],
{
    proof {
        reveal_strlit("CLI '");
        reveal_strlit("CLI ");
        reveal_strlit("' timed out after ");
        reveal_strlit(" timed out after ");
        assert("CLI '"@ =~= "CLI "@ + seq!['\'']);
        assert("' timed out after "@ =~= seq!['\''] + " timed out after "@);
    }
    let mut v = quoted_program("CLI ", program, " timed out after ");
    let mut d = crate::text::decimal_chars(secs);
    v.append(&mut d);
    v.push('s');
    crate::llm::LlmError::NetworkError { message: string_of(v.as_slice()) }
}

/// The error of a run that could not start: a missing program is a
/// stopped process (so the router may fall back); anything else is
/// internal, with the system's reason.
pub fn cli_spawn_error(program: &str, not_found: bool, reason: &str) -> (e: crate::llm::LlmError)
    ensures
        not_found ==> (e matches crate::llm::LlmError::ProcessNotRunning { model_id } && model_id@ == program@),
        !not_found ==> (e matches crate::llm::LlmError::Internal { message } && message@ == "spawn '"@ + program@
            + "' failed: "@ + reason@),
{
    if not_found {
        return crate::llm::LlmError::ProcessNotRunning { model_id: program.to_string() };
    }
    proof {
        reveal_strlit("spawn '");
        reveal_strlit("spawn ");
        reveal_strlit("' failed: ");
        reveal_strlit(" failed: ");
        assert("spawn '"@ =~= "spawn "@ + seq!['\'']);
        assert("' failed: "@ =~= seq!['\''] + " failed: "@);
    }
    let mut v = quoted_program("spawn ", program, " failed: ");
    let mut r = chars_of(reason);
    v.append(&mut r);
    crate::llm::LlmError::Internal { message: string_of(v.as_slice()) }
}

} // verus!
