//! The `status` / `usage` snapshot: the project directory with the home
//! directory collapsed to `~`, the git branch with its dirty marker, the
//! repository name, and the fields taken from the agent's status document.
//! Running git and reading files is the caller's.

use vstd::prelude::*;

use crate::json::{get_member, json_text, member, JsonNode};
use crate::lane::index_of_from;
use crate::path::{backslash_separates, file_name, native_chars, native_path, path_file_name};
use crate::text::{chars_eq_str, chars_of, decode_lossy, has_prefix, starts_with, string_of, sub_chars, utf8_lossy};
use crate::vault::{forward_slashes, normalize_path_str, opt_str, trim_chars, trim_ws};

verus! {

// ---------------------------------------------------------------------------
// dir, repo, git
// ---------------------------------------------------------------------------

/// The project directory as shown: forward slashes, and the home directory
/// prefix (compared as text) replaced by `~`.
pub open spec fn collapse_home_spec(root: Seq<char>, home: Option<Seq<char>>) -> Seq<char> {
    let r = forward_slashes(root);
    match home {
        Some(h) => {
            let hs = forward_slashes(h);
            if has_prefix(r, hs) {
                seq!['~'] + r.subrange(hs.len() as int, r.len() as int)
            } else {
                r
            }
        },
        None => r,
    }
}

/// [`collapse_home_spec`].
pub fn collapse_home(root: &str, home: Option<&str>) -> (r: String)
    ensures
        r@ == collapse_home_spec(root@, match home {
            Some(h) => Some(h@),
            None => None,
        }),
{
    let rs = normalize_path_str(root);
    match home {
        Some(h) => {
            let hs = normalize_path_str(h);
            let rc = chars_of(rs.as_str());
            let hc = chars_of(hs.as_str());
            if starts_with(rc.as_slice(), hc.as_slice()) {
                let mut out: Vec<char> = Vec::new();
                out.push('~');
                let mut rest = sub_chars(rc.as_slice(), hc.len(), rc.len());
                out.append(&mut rest);
                string_of(out.as_slice())
            } else {
                rs
            }
        },
        None => rs,
    }
}

/// The repository name shown: the last component of the project root, or
/// the whole root text when it has none.
pub open spec fn repo_name_spec(root: Seq<char>, w: bool) -> Seq<char> {
    match file_name(native_path(root, w)) {
        Some(n) => n,
        None => root,
    }
}

/// [`repo_name_spec`].
pub fn repo_name(root: &str) -> (r: String)
    ensures
        exists|w: bool| r@ == #[trigger] repo_name_spec(root@, w),
{
    let w = backslash_separates();
    let c = native_chars(root, w);
    let r = match path_file_name(c.as_slice()) {
        Some(n) => string_of(n.as_slice()),
        None => string_of(chars_of(root).as_slice()),
    };
    assert(r@ == repo_name_spec(root@, w));
    r
}

/// The text of a git command's standard output: decoded (invalid UTF-8
/// replaced) and trimmed.
pub fn git_output_text(stdout: &[u8]) -> (r: String)
    ensures
        r@ == trim_ws(utf8_lossy(stdout@)),
{
    let d = decode_lossy(stdout);
    let t = trim_chars(d.as_slice());
    string_of(t.as_slice())
}

/// The repository root reported by `git rev-parse --show-toplevel`, unless
/// it was empty.
pub fn repo_root(toplevel: Option<String>) -> (r: Option<String>)
    ensures
        match toplevel {
            Some(t) => if t@.len() == 0 {
                r is None
            } else {
                r == Some(t)
            },
            None => r is None,
        },
{
    match toplevel {
        Some(t) => if t.as_str().is_empty() {
            None
        } else {
            Some(t)
        },
        None => None,
    }
}

/// The git segment: the branch (from `symbolic-ref`, else the short commit
/// from `rev-parse`, whichever is non-empty first) with `*` when the tree is
/// dirty; an em dash when there is neither.
pub open spec fn git_segment_spec(symbolic: Option<Seq<char>>, sha: Option<Seq<char>>, dirty: bool) -> Seq<char> {
    let branch = match symbolic {
        Some(b) if b.len() > 0 => Some(b),
        _ => match sha {
            Some(s) if s.len() > 0 => Some(s),
            _ => None,
        },
    };
    match branch {
        Some(b) => if dirty {
            b + seq!['*']
        } else {
            b
        },
        None => seq!['\u{2014}'],
    }
}

/// [`git_segment_spec`] of the outputs of the git commands that succeeded.
pub fn git_segment(symbolic: Option<String>, sha: Option<String>, dirty: bool) -> (r: String)
    ensures
        r@ == git_segment_spec(opt_str(symbolic), opt_str(sha), dirty),
{
    let branch = match symbolic {
        Some(b) if !b.as_str().is_empty() => Some(b),
        _ => match sha {
            Some(s) if !s.as_str().is_empty() => Some(s),
            _ => None,
        },
    };
    match branch {
        Some(b) => if dirty {
            let mut c = chars_of(b.as_str());
            c.push('*');
            string_of(c.as_slice())
        } else {
            b
        },
        None => {
            let mut c: Vec<char> = Vec::new();
            c.push('\u{2014}');
            string_of(c.as_slice())
        },
    }
}

// ---------------------------------------------------------------------------
// The agent's status document
// ---------------------------------------------------------------------------

/// `Option::and_then(|v| v.get(key))`.
pub open spec fn get(n: Option<JsonNode>, key: Seq<char>) -> Option<JsonNode> {
    match n {
        Some(x) => member(x, key),
        None => None,
    }
}

pub open spec fn deref_opt(n: Option<&JsonNode>) -> Option<JsonNode> {
    match n {
        Some(x) => Some(*x),
        None => None,
    }
}

fn get_opt<'a>(n: Option<&'a JsonNode>, key: &str) -> (r: Option<&'a JsonNode>)
    ensures
        deref_opt(r) == get(deref_opt(n), key@),
{
    match n {
        Some(x) => get_member(x, key),
        None => None,
    }
}

fn text_opt(n: Option<&JsonNode>) -> (r: Option<String>)
    ensures
        opt_str(r) == json_text(deref_opt(n)),
{
    match n {
        Some(JsonNode::Text(s)) => Some(s.clone()),
        _ => None,
    }
}

/// `model`: a string, or an object's `display_name` (else its `id`) string.
pub open spec fn cc_model_spec(v: JsonNode) -> Option<Seq<char>> {
    match member(v, "model"@) {
        Some(JsonNode::Text(s)) => Some(s@),
        Some(m) => {
            let d = member(m, "display_name"@);
            json_text(if d is Some { d } else { member(m, "id"@) })
        },
        None => None,
    }
}

/// The text before the first `c` of `s` (all of `s` when there is none).
pub open spec fn first_piece(s: Seq<char>, c: char) -> Seq<char> {
    match index_of_from(s, c, 0) {
        Some(i) => s.subrange(0, i),
        None => s,
    }
}

/// `skill`: the part of `session_name` before its first `:`, unless empty
/// or `default`; else a non-empty `primary_skill` string, or, when there is
/// no `primary_skill` member, a non-empty `session.active_skill` string.
pub open spec fn cc_skill_spec(v: JsonNode) -> Option<Seq<char>> {
    let from_name = match json_text(member(v, "session_name"@)) {
        Some(s) => {
            let p = first_piece(s, ':');
            if p.len() > 0 && p != "default"@ {
                Some(p)
            } else {
                None
            }
        },
        None => None,
    };
    if from_name is Some {
        from_name
    } else {
        let ps = member(v, "primary_skill"@);
        let c = if ps is Some { ps } else { get(member(v, "session"@), "active_skill"@) };
        match json_text(c) {
            Some(s) => if s.len() > 0 {
                Some(s)
            } else {
                None
            },
            None => None,
        }
    }
}

/// `thinking`: `on` when `thinking.type` is `enabled`, `off` for any other
/// `thinking.type` string; without one, `on` when `effort.level` is a string.
pub open spec fn cc_thinking_spec(v: JsonNode) -> Option<Seq<char>> {
    match json_text(get(member(v, "thinking"@), "type"@)) {
        Some(ty) => Some(if ty == "enabled"@ { "on"@ } else { "off"@ }),
        None => if json_text(get(member(v, "effort"@), "level"@)) is Some {
            Some("on"@)
        } else {
            None
        },
    }
}

/// Where the effort level comes from.
pub enum EffortSource {
    /// A level given as text.
    Level(String),
    /// Thinking is enabled with no level: the level follows from the
    /// thinking token budget.
    FromBudget,
    /// No effort level.
    Absent,
}

pub enum EffortSpec {
    Level(Seq<char>),
    FromBudget,
    Absent,
}

impl View for EffortSource {
    type V = EffortSpec;

    open spec fn view(&self) -> EffortSpec {
        match self {
            EffortSource::Level(s) => EffortSpec::Level(s@),
            EffortSource::FromBudget => EffortSpec::FromBudget,
            EffortSource::Absent => EffortSpec::Absent,
        }
    }
}

/// `effort`: the `effort.level` string; else `thinking.effort` string; else,
/// when `thinking.type` is `enabled`, the level that the budget gives.
pub open spec fn cc_effort_spec(v: JsonNode) -> EffortSpec {
    match json_text(get(member(v, "effort"@), "level"@)) {
        Some(l) => EffortSpec::Level(l),
        None => match member(v, "thinking"@) {
            Some(t) => match json_text(member(t, "effort"@)) {
                Some(e) => EffortSpec::Level(e),
                None => if json_text(member(t, "type"@)) == Some("enabled"@) {
                    EffortSpec::FromBudget
                } else {
                    EffortSpec::Absent
                },
            },
            None => EffortSpec::Absent,
        },
    }
}

/// The text fields of the agent's status document that need no arithmetic.
pub struct CcText {
    pub model: Option<String>,
    pub github_owner: Option<String>,
    pub github_repo: Option<String>,
    pub skill: Option<String>,
    pub thinking: Option<String>,
    pub effort: EffortSource,
}

fn owned(s: &str) -> (r: String)
    ensures
        r@ == s@,
{
    s.to_string()
}

/// Reads the text fields out of the agent's status document `v`.
pub fn cc_text_fields(v: &JsonNode) -> (r: CcText)
    ensures
        opt_str(r.model) == cc_model_spec(*v),
        opt_str(r.github_owner) == json_text(get(get(member(*v, "workspace"@), "repo"@), "owner"@)),
        opt_str(r.github_repo) == json_text(get(get(member(*v, "workspace"@), "repo"@), "name"@)),
        opt_str(r.skill) == cc_skill_spec(*v),
        opt_str(r.thinking) == cc_thinking_spec(*v),
        r.effort@ == cc_effort_spec(*v),
{
    proof {
        reveal_strlit("model");
        reveal_strlit("display_name");
        reveal_strlit("id");
        reveal_strlit("workspace");
        reveal_strlit("repo");
        reveal_strlit("owner");
        reveal_strlit("name");
        reveal_strlit("session_name");
        reveal_strlit("default");
        reveal_strlit("primary_skill");
        reveal_strlit("session");
        reveal_strlit("active_skill");
        reveal_strlit("thinking");
        reveal_strlit("type");
        reveal_strlit("enabled");
        reveal_strlit("on");
        reveal_strlit("off");
        reveal_strlit("effort");
        reveal_strlit("level");
    }
    let root = Some(v);
    // model
    let model = match get_member(v, "model") {
        Some(JsonNode::Text(s)) => Some(s.clone()),
        Some(m) => {
            let d = get_member(m, "display_name");
            let pick = if d.is_some() {
                d
            } else {
                get_member(m, "id")
            };
            text_opt(pick)
        },
        None => None,
    };
    // github
    let repo = get_opt(get_opt(root, "workspace"), "repo");
    let github_owner = text_opt(get_opt(repo, "owner"));
    let github_repo = text_opt(get_opt(repo, "name"));
    // skill
    let from_name: Option<String> = match text_opt(get_opt(root, "session_name")) {
        Some(s) => {
            let c = chars_of(s.as_str());
            proof {
                crate::lane::lemma_index_of_from(c@, ':', 0);
            }
            let p = match crate::lane::find_char(c.as_slice(), ':', 0) {
                Some(i) => sub_chars(c.as_slice(), 0, i),
                None => c,
            };
            if p.len() > 0 && !chars_eq_str(p.as_slice(), "default") {
                Some(string_of(p.as_slice()))
            } else {
                None
            }
        },
        None => None,
    };
    let skill = if from_name.is_some() {
        from_name
    } else {
        let ps = get_member(v, "primary_skill");
        let c = if ps.is_some() {
            ps
        } else {
            get_opt(get_opt(root, "session"), "active_skill")
        };
        match text_opt(c) {
            Some(s) => if !s.as_str().is_empty() {
                Some(s)
            } else {
                None
            },
            None => None,
        }
    };
    // thinking
    let thinking_node = get_member(v, "thinking");
    let effort_level = text_opt(get_opt(get_opt(root, "effort"), "level"));
    let thinking = match text_opt(get_opt(thinking_node, "type")) {
        Some(ty) => {
            let tc = chars_of(ty.as_str());
            if chars_eq_str(tc.as_slice(), "enabled") {
                Some(owned("on"))
            } else {
                Some(owned("off"))
            }
        },
        None => if effort_level.is_some() {
            Some(owned("on"))
        } else {
            None
        },
    };
    // effort
    let effort = match effort_level {
        Some(l) => EffortSource::Level(l),
        None => match thinking_node {
            Some(t) => match text_opt(get_member(t, "effort")) {
                Some(e) => EffortSource::Level(e),
                None => {
                    let enabled = match text_opt(get_member(t, "type")) {
                        Some(ty) => {
                            let tc = chars_of(ty.as_str());
                            chars_eq_str(tc.as_slice(), "enabled")
                        },
                        None => false,
                    };
                    if enabled {
                        EffortSource::FromBudget
                    } else {
                        EffortSource::Absent
                    }
                },
            },
            None => EffortSource::Absent,
        },
    };
    CcText { model, github_owner, github_repo, skill, thinking, effort }
}

/// The agent's status document is used only while it is at most 30 seconds
/// old; `None` (its age could not be measured) counts as stale.
pub fn cc_status_is_fresh(age_nanos: Option<u128>) -> (r: bool)
    ensures
        r == match age_nanos {
            Some(a) => a <= 30_000_000_000,
            None => false,
        },
{
    match age_nanos {
        Some(a) => a <= 30_000_000_000,
        None => false,
    }
}

/// The agent-sourced fields of a status snapshot.
pub struct CcStatus {
    pub model: Option<String>,
    pub ctx_pct: Option<u32>,
    pub session_use_pct: Option<u32>,
    pub week_pct: Option<u32>,
    pub github_owner: Option<String>,
    pub github_repo: Option<String>,
    pub skill: Option<String>,
    pub thinking: Option<String>,
    pub effort: Option<String>,
}

/// The agent fields: the text fields of the document, the percentages as
/// measured, and the effort level, which is `budget_level` exactly when the
/// document leaves the level to the thinking budget.
pub fn cc_status(
    text: CcText,
    ctx_pct: Option<u32>,
    session_use_pct: Option<u32>,
    week_pct: Option<u32>,
    budget_level: &str,
) -> (r: CcStatus)
    ensures
        r.model == text.model,
        r.github_owner == text.github_owner,
        r.github_repo == text.github_repo,
        r.skill == text.skill,
        r.thinking == text.thinking,
        r.ctx_pct == ctx_pct,
        r.session_use_pct == session_use_pct,
        r.week_pct == week_pct,
        opt_str(r.effort) == match text.effort@ {
            EffortSpec::Level(l) => Some(l),
            EffortSpec::FromBudget => Some(budget_level@),
            EffortSpec::Absent => None,
        },
{
    let effort = match text.effort {
        EffortSource::Level(l) => Some(l),
        EffortSource::FromBudget => Some(owned(budget_level)),
        EffortSource::Absent => None,
    };
    CcStatus {
        model: text.model,
        ctx_pct,
        session_use_pct,
        week_pct,
        github_owner: text.github_owner,
        github_repo: text.github_repo,
        skill: text.skill,
        thinking: text.thinking,
        effort,
    }
}

/// Payload of a `status` / `usage` envelope.
pub struct StatusPayload {
    pub dir: String,
    pub git: String,
    pub repo: String,
    pub ts: u64,
    /// Present when a fresh agent status document was read.
    pub cc: Option<CcStatus>,
}

} // verus!

verus! {

/// A fresh `status` / `usage` envelope, its payload still to be set.
pub fn usage_envelope() -> (e: crate::envelope::Envelope)
    ensures
        e.version == crate::envelope::CURRENT_VERSION,
        e.category == crate::envelope::Category::Status,
        e.kind@ == "usage"@,
{
    crate::envelope::Envelope::new(crate::envelope::Category::Status, "usage")
}

} // verus!
