//! Permission rule engine.
//!
//! Wraps an asker (an interactive prompt) with a rule list and a write sandbox. A request is decided
//! by the first matching rule (`tool:glob` -> allow/deny); unmatched requests fall through to the
//! asker. Writes outside the sandbox root always ask, even if a rule would allow them. Rules come
//! from the configuration or are added at runtime by an "allow always" choice.

use crate::config::{PermissionConfig, PermissionView};
use crate::paths;
use crate::patterns;
use crate::text;
use crate::tools::{AskView, Permission, PermissionRequest, Risk};
use vstd::prelude::*;
use vstd::string::*;

verus! {

broadcast use crate::text::views_push;

/// A single allow/deny rule matching a tool's request key against a glob.
pub struct Rule {
    tool: String,
    /// The original glob (for display / persistence).
    pattern: String,
    /// The regular expression that the glob stands for.
    matcher: String,
    allow: bool,
}

/// The mathematical value of a [`Rule`].
pub struct RuleView {
    pub tool: Seq<char>,
    pub glob: Seq<char>,
    pub allow: bool,
}

impl View for Rule {
    type V = RuleView;

    closed spec fn view(&self) -> RuleView {
        RuleView { tool: self.tool@, glob: self.pattern@, allow: self.allow }
    }
}

/// A character that stands for itself in a glob but not in a regular expression.
pub open spec fn is_special(c: char) -> bool {
    c == '.' || c == '+' || c == '(' || c == ')' || c == '|' || c == '^' || c == '$' || c == '['
        || c == ']' || c == '{' || c == '}' || c == '\\'
}

/// What one character of a glob becomes in the regular expression.
pub open spec fn glob_char(c: char) -> Seq<char> {
    if c == '*' {
        ".*"@
    } else if c == '?' {
        "."@
    } else if is_special(c) {
        seq!['\\', c]
    } else {
        seq![c]
    }
}

/// What the first `n` characters of a glob become.
pub open spec fn glob_body(glob: Seq<char>, n: int) -> Seq<char>
    decreases n,
{
    if n <= 0 {
        seq![]
    } else {
        glob_body(glob, n - 1) + glob_char(glob[n - 1])
    }
}

/// The regular expression over the whole key that a glob stands for.
pub open spec fn glob_pattern(glob: Seq<char>) -> Seq<char> {
    "^"@ + glob_body(glob, glob.len() as int) + "$"@
}

/// A glob matches a key. One whose regular expression is refused matches the empty key alone.
pub open spec fn glob_matches(glob: Seq<char>, key: Seq<char>) -> bool {
    if patterns::regex_error(glob_pattern(glob)) is None {
        patterns::matched(glob_pattern(glob), key)
    } else {
        patterns::matched("^$"@, key)
    }
}

/// A rule applies to a tool's key. The tool `*` is any tool.
pub open spec fn applies(rule: RuleView, tool: Seq<char>, key: Seq<char>) -> bool {
    (rule.tool == "*"@ || rule.tool == tool) && glob_matches(rule.glob, key)
}

/// The decision of the first rule at or after `i` that applies.
pub open spec fn decision_from(
    rules: Seq<RuleView>,
    tool: Seq<char>,
    key: Seq<char>,
    i: int,
) -> Option<bool>
    decreases rules.len() - i,
{
    if i < 0 || i >= rules.len() {
        None
    } else if applies(rules[i], tool, key) {
        Some(rules[i].allow)
    } else {
        decision_from(rules, tool, key, i + 1)
    }
}

/// The write goes outside the sandbox.
pub open spec fn escapes(sandbox: Option<Seq<char>>, req: AskView) -> bool {
    match sandbox {
        Some(root) => req.risk == Risk::Write && paths::absolute(req.key) && !paths::within(
            req.key,
            root,
        ),
        None => false,
    }
}

/// What the rules and the sandbox make of a request.
#[derive(Debug, Clone, Copy, PartialEq, Eq, Structural)]
pub enum Verdict {
    Allow,
    Deny,
    Ask,
}

pub open spec fn verdict(
    rules: Seq<RuleView>,
    sandbox: Option<Seq<char>>,
    req: AskView,
) -> Verdict {
    match decision_from(rules, req.tool, req.key, 0) {
        Some(false) => Verdict::Deny,
        Some(true) => if escapes(sandbox, req) {
            Verdict::Ask
        } else {
            Verdict::Allow
        },
        None => Verdict::Ask,
    }
}

/// A denying rule always wins over the sandbox and the asker: when the first rule that applies
/// denies, the request is denied.
pub proof fn a_deny_rule_wins(
    rules: Seq<RuleView>,
    sandbox: Option<Seq<char>>,
    req: AskView,
    at: int,
)
    requires
        0 <= at < rules.len(),
        applies(rules[at], req.tool, req.key),
        !rules[at].allow,
        forall|k: int| 0 <= k < at ==> !applies(#[trigger] rules[k], req.tool, req.key),
    ensures
        verdict(rules, sandbox, req) == Verdict::Deny,
{
    lemma_first_decides(rules, req.tool, req.key, at, 0);
}

/// A write outside the sandbox is never allowed without asking, whatever the rules say.
pub proof fn an_outside_write_is_never_allowed_unasked(
    rules: Seq<RuleView>,
    root: Seq<char>,
    req: AskView,
)
    requires
        req.risk == Risk::Write,
        paths::absolute(req.key),
        !paths::within(req.key, root),
    ensures
        verdict(rules, Some(root), req) != Verdict::Allow,
{
}

/// A request that no rule applies to is asked.
pub proof fn an_unmatched_request_is_asked(
    rules: Seq<RuleView>,
    sandbox: Option<Seq<char>>,
    req: AskView,
)
    requires
        forall|k: int| 0 <= k < rules.len() ==> !applies(#[trigger] rules[k], req.tool, req.key),
    ensures
        verdict(rules, sandbox, req) == Verdict::Ask,
{
    lemma_none_decides(rules, req.tool, req.key, 0);
}

proof fn lemma_first_decides(
    rules: Seq<RuleView>,
    tool: Seq<char>,
    key: Seq<char>,
    at: int,
    i: int,
)
    requires
        0 <= i <= at < rules.len(),
        applies(rules[at], tool, key),
        forall|k: int| 0 <= k < at ==> !applies(#[trigger] rules[k], tool, key),
    ensures
        decision_from(rules, tool, key, i) == Some(rules[at].allow),
    decreases at - i,
{
    if i < at {
        lemma_first_decides(rules, tool, key, at, i + 1);
    }
}

proof fn lemma_none_decides(rules: Seq<RuleView>, tool: Seq<char>, key: Seq<char>, i: int)
    requires
        0 <= i <= rules.len(),
        forall|k: int| 0 <= k < rules.len() ==> !applies(#[trigger] rules[k], tool, key),
    ensures
        decision_from(rules, tool, key, i) is None,
    decreases rules.len() - i,
{
    if i < rules.len() {
        lemma_none_decides(rules, tool, key, i + 1);
    }
}

/// The regular expression over the whole key that a glob stands for.
pub fn glob_regex(glob: &str) -> (r: String)
    ensures
        r@ == glob_pattern(glob@),
{
    let v = text::chars_of(glob);
    let mut re = "^".to_string();
    assert(re@ =~= "^"@ + glob_body(glob@, 0));
    let mut i: usize = 0;
    while i < v.len()
        invariant
            0 <= i <= v@.len(),
            v@ == glob@,
            re@ == "^"@ + glob_body(glob@, i as int),
        decreases v@.len() - i,
    {
        let c = v[i];
        let ghost before = re@;
        if c == '*' {
            re.append(".*");
        } else if c == '?' {
            re.append(".");
        } else if c == '.' || c == '+' || c == '(' || c == ')' || c == '|' || c == '^' || c == '$'
            || c == '[' || c == ']' || c == '{' || c == '}' || c == '\\' {
            re.push('\\');
            re.push(c);
            assert(re@ =~= before + seq!['\\', c]);
        } else {
            re.push(c);
            assert(re@ =~= before + seq![c]);
        }
        assert(re@ == before + glob_char(c));
        assert(re@ =~= "^"@ + (glob_body(glob@, i as int) + glob_char(c)));
        i += 1;
    }
    re.append("$");
    re
}

impl Rule {
    /// The matcher is the glob's own, or the one for the empty key where that is refused.
    #[verifier::type_invariant]
    spec fn compiled(self) -> bool {
        self.matcher@ == (if patterns::regex_error(glob_pattern(self.pattern@)) is None {
            glob_pattern(self.pattern@)
        } else {
            "^$"@
        })
    }

    /// `tool` may be `*` to match any tool; `glob` supports `*` wildcards over the request key.
    pub fn new(tool: &str, glob: &str, allow: bool) -> (r: Rule)
        ensures
            r@ == (RuleView { tool: tool@, glob: glob@, allow }),
    {
        let re = glob_regex(glob);
        let matcher = match patterns::error_in(re.as_str()) {
            None => re,
            Some(_) => "^$".to_string(),
        };
        Rule { tool: tool.to_string(), pattern: glob.to_string(), matcher, allow }
    }

    /// Whether the rule applies to a tool's key.
    pub fn matches(&self, tool: &str, key: &str) -> (r: bool)
        ensures
            r == applies(self@, tool@, key@),
    {
        proof {
            use_type_invariant(self);
        }
        (text::same(self.tool.as_str(), "*") || text::same(self.tool.as_str(), tool))
            && patterns::is_match(self.matcher.as_str(), key)
    }

    /// `allow bash:git *` style description.
    pub fn describe(&self) -> (r: String)
        ensures
            r@ == described(self@),
    {
        let mut s = if self.allow {
            "allow".to_string()
        } else {
            "deny ".to_string()
        };
        s.append(" ");
        s.append(self.tool.as_str());
        s.append(":");
        s.append(self.pattern.as_str());
        s
    }
}

/// The one-line description of a rule.
pub open spec fn described(rule: RuleView) -> Seq<char> {
    (if rule.allow {
        "allow"@
    } else {
        "deny "@
    }) + " "@ + rule.tool + ":"@ + rule.glob
}

// ---- rules from the configuration -----------------------------------------------------------

/// The rule that an entry `tool:glob` stands for; a bare glob applies to any tool.
pub open spec fn rule_in(entry: Seq<char>, allow: bool) -> RuleView {
    let at = text::next_char(entry, ':', 0);
    if at < entry.len() {
        RuleView { tool: entry.take(at), glob: entry.skip(at + 1), allow }
    } else {
        RuleView { tool: "*"@, glob: entry, allow }
    }
}

/// The rules that entries stand for.
pub open spec fn rules_in(entries: Seq<Seq<char>>, allow: bool) -> Seq<RuleView> {
    entries.map_values(|e: Seq<char>| rule_in(e, allow))
}

/// The rules of a configuration: what it denies, then what it allows, then, in the mode `auto`,
/// everything else.
pub open spec fn configured(c: PermissionView) -> Seq<RuleView> {
    let listed = rules_in(c.deny, false) + rules_in(c.allow, true);
    if c.mode == Some("auto"@) {
        listed.push(RuleView { tool: "*"@, glob: "*"@, allow: true })
    } else {
        listed
    }
}

/// Whatever a configuration allows, and in every mode, a request that one of its denials applies to
/// is denied.
pub proof fn a_configured_denial_wins(
    c: PermissionView,
    sandbox: Option<Seq<char>>,
    req: AskView,
    at: int,
)
    requires
        0 <= at < c.deny.len(),
        applies(rule_in(c.deny[at], false), req.tool, req.key),
    ensures
        verdict(configured(c), sandbox, req) == Verdict::Deny,
{
    lemma_denial_decides(c, req, at, 0);
}

proof fn lemma_denial_decides(c: PermissionView, req: AskView, at: int, i: int)
    requires
        0 <= i <= at < c.deny.len(),
        applies(rule_in(c.deny[at], false), req.tool, req.key),
    ensures
        decision_from(configured(c), req.tool, req.key, i) == Some(false),
    decreases at - i,
{
    assert(configured(c)[i] == rule_in(c.deny[i], false));
    if i < at {
        lemma_denial_decides(c, req, at, i + 1);
    }
}

/// In the mode `auto` a request that no denial applies to is allowed, but for a write outside the
/// sandbox, which is asked. The star stands for every key that its pattern matches.
pub proof fn auto_allows_what_is_not_denied(
    c: PermissionView,
    sandbox: Option<Seq<char>>,
    req: AskView,
)
    requires
        c.mode == Some("auto"@),
        glob_matches("*"@, req.key),
        forall|k: int|
            0 <= k < c.deny.len() ==> !applies(
                rule_in(#[trigger] c.deny[k], false),
                req.tool,
                req.key,
            ),
    ensures
        verdict(configured(c), sandbox, req) == (if escapes(sandbox, req) {
            Verdict::Ask
        } else {
            Verdict::Allow
        }),
{
    lemma_auto_decides(c, req, 0);
}

proof fn lemma_auto_decides(c: PermissionView, req: AskView, i: int)
    requires
        c.mode == Some("auto"@),
        glob_matches("*"@, req.key),
        forall|k: int|
            0 <= k < c.deny.len() ==> !applies(
                rule_in(#[trigger] c.deny[k], false),
                req.tool,
                req.key,
            ),
        0 <= i <= c.deny.len() + c.allow.len(),
    ensures
        decision_from(configured(c), req.tool, req.key, i) == Some(true),
    decreases c.deny.len() + c.allow.len() - i,
{
    let rules = configured(c);
    if i < c.deny.len() {
        assert(rules[i] == rule_in(c.deny[i], false));
        lemma_auto_decides(c, req, i + 1);
    } else if i < c.deny.len() + c.allow.len() {
        assert(rules[i] == rule_in(c.allow[i - c.deny.len()], true));
        if !applies(rules[i], req.tool, req.key) {
            lemma_auto_decides(c, req, i + 1);
        }
    } else {
        assert(rules[i] == (RuleView { tool: "*"@, glob: "*"@, allow: true }));
    }
}

impl Rule {
    /// The rule that an entry `tool:glob` stands for; a bare glob applies to any tool.
    pub fn from_entry(entry: &str, allow: bool) -> (r: Rule)
        ensures
            r@ == rule_in(entry@, allow),
    {
        let v = text::chars_of(entry);
        let at = text::next_char_at(&v, ':', 0);
        let n = v.len();
        if at < n {
            let tool = entry.substring_char(0, at);
            let glob = entry.substring_char(at + 1, n);
            assert(tool@ =~= entry@.take(at as int));
            assert(glob@ =~= entry@.skip(at + 1));
            Rule::new(tool, glob, allow)
        } else {
            Rule::new("*", entry, allow)
        }
    }

    /// The rules of a configuration.
    pub fn from_config(config: &PermissionConfig) -> (r: Vec<Rule>)
        ensures
            text::views(r@) == configured(config@),
    {
        let mut rules: Vec<Rule> = Vec::new();
        assert(text::views(rules@) =~= seq![]);
        add_entries(&mut rules, &config.deny, false);
        add_entries(&mut rules, &config.allow, true);
        assert(text::views(rules@) =~= rules_in(config@.deny, false) + rules_in(
            config@.allow,
            true,
        ));
        let auto = match &config.mode {
            Some(mode) => text::same(mode.as_str(), "auto"),
            None => false,
        };
        if auto {
            rules.push(Rule::new("*", "*", true));
        }
        rules
    }
}

fn add_entries(rules: &mut Vec<Rule>, entries: &Vec<String>, allow: bool)
    ensures
        text::views(final(rules)@) == text::views(old(rules)@) + rules_in(
            text::views(entries@),
            allow,
        ),
{
    let ghost before = text::views(rules@);
    let ghost added = rules_in(text::views(entries@), allow);
    assert(before + added.take(0) =~= before);
    let mut i: usize = 0;
    while i < entries.len()
        invariant
            0 <= i <= entries@.len(),
            added == rules_in(text::views(entries@), allow),
            text::views(rules@) == before + added.take(i as int),
        decreases entries@.len() - i,
    {
        rules.push(Rule::from_entry(entries[i].as_str(), allow));
        assert(added[i as int] == rule_in(entries@[i as int]@, allow));
        assert(before + added.take(i + 1) =~= (before + added.take(i as int)).push(
            added[i as int],
        ));
        i += 1;
    }
    assert(added.take(i as int) =~= added);
}

/// Rule-based permission gate delegating to `asker` on no match.
pub struct PermissionEngine<P: Permission> {
    rules: Vec<Rule>,
    sandbox_root: Option<String>,
    asker: P,
}

impl<P: Permission> PermissionEngine<P> {
    /// The rules, in the order in which they are tried.
    pub closed spec fn rules(&self) -> Seq<RuleView> {
        text::views(self.rules@)
    }

    pub closed spec fn sandbox(&self) -> Option<Seq<char>> {
        text::opt_view(self.sandbox_root)
    }

    /// Who is asked.
    pub closed spec fn asker(&self) -> P {
        self.asker
    }

    pub fn new(asker: P) -> (r: PermissionEngine<P>)
        ensures
            r.rules() == Seq::<RuleView>::empty(),
            r.sandbox() is None,
            r.asker() == asker,
    {
        let r = PermissionEngine { rules: Vec::new(), sandbox_root: None, asker };
        assert(r.rules() =~= Seq::empty());
        r
    }

    pub fn with_rules(self, rules: Vec<Rule>) -> (r: PermissionEngine<P>)
        ensures
            r.rules() == text::views(rules@),
            r.sandbox() == self.sandbox(),
            r.asker() == self.asker(),
    {
        PermissionEngine { rules, sandbox_root: self.sandbox_root, asker: self.asker }
    }

    /// Confine `Write` actions to paths under `root`; writes elsewhere always ask.
    pub fn with_sandbox(self, root: &str) -> (r: PermissionEngine<P>)
        ensures
            r.rules() == self.rules(),
            r.sandbox() == Some(root@),
            r.asker() == self.asker(),
    {
        PermissionEngine {
            rules: self.rules,
            sandbox_root: Some(root.to_string()),
            asker: self.asker,
        }
    }

    /// Add a rule at runtime (e.g. an "allow always" choice). It is tried after the others.
    pub fn add_rule(&mut self, tool: &str, glob: &str, allow: bool)
        ensures
            final(self).rules() == old(self).rules().push(
                RuleView { tool: tool@, glob: glob@, allow },
            ),
            final(self).sandbox() == old(self).sandbox(),
            final(self).asker() == old(self).asker(),
    {
        self.rules.push(Rule::new(tool, glob, allow));
    }

    /// Replace all rules (used when the config is hot-reloaded).
    pub fn set_rules(&mut self, rules: Vec<Rule>)
        ensures
            final(self).rules() == text::views(rules@),
            final(self).sandbox() == old(self).sandbox(),
            final(self).asker() == old(self).asker(),
    {
        self.rules = rules;
    }

    /// One-line descriptions of every active rule.
    pub fn describe_rules(&self) -> (r: Vec<String>)
        ensures
            text::views(r@) == self.rules().map_values(|rule: RuleView| described(rule)),
    {
        let mut out: Vec<String> = Vec::new();
        let mut i: usize = 0;
        while i < self.rules.len()
            invariant
                0 <= i <= self.rules@.len(),
                out@.len() == i,
                forall|k: int| 0 <= k < i ==> (#[trigger] out@[k])@ == described(self.rules@[k]@),
            decreases self.rules@.len() - i,
        {
            out.push(self.rules[i].describe());
            i += 1;
        }
        assert(text::views(out@) =~= self.rules().map_values(|rule: RuleView| described(rule)));
        out
    }

    /// First matching rule's decision, if any.
    pub fn rule_decision(&self, tool: &str, key: &str) -> (r: Option<bool>)
        ensures
            r == decision_from(self.rules(), tool@, key@, 0),
    {
        let mut i: usize = 0;
        while i < self.rules.len()
            invariant
                0 <= i <= self.rules@.len(),
                decision_from(self.rules(), tool@, key@, 0) == decision_from(
                    self.rules(),
                    tool@,
                    key@,
                    i as int,
                ),
            decreases self.rules@.len() - i,
        {
            assert(self.rules()[i as int] == self.rules@[i as int]@);
            if self.rules[i].matches(tool, key) {
                return Some(self.rules[i].allow);
            }
            i += 1;
        }
        None
    }

    /// Whether a request is a write outside the sandbox.
    pub fn outside_sandbox(&self, req: &PermissionRequest<'_>) -> (r: bool)
        ensures
            r == escapes(self.sandbox(), req@),
    {
        if req.risk != Risk::Write {
            return false;
        }
        match &self.sandbox_root {
            Some(root) => paths::is_absolute(req.key) && !paths::starts_with(
                req.key,
                root.as_str(),
            ),
            None => false,
        }
    }

    /// What the rules and the sandbox make of a request.
    pub fn decide(&self, req: &PermissionRequest<'_>) -> (r: Verdict)
        ensures
            r == verdict(self.rules(), self.sandbox(), req@),
    {
        match self.rule_decision(req.tool, req.key) {
            // A deny rule always wins, even outside the sandbox.
            Some(false) => Verdict::Deny,
            // Outside the sandbox: never auto-allow; defer to the asker.
            Some(true) => if self.outside_sandbox(req) {
                Verdict::Ask
            } else {
                Verdict::Allow
            },
            None => Verdict::Ask,
        }
    }
}

impl<P: Permission> Permission for PermissionEngine<P> {
    /// A verdict is the answer; where the verdict is to ask, the asker's answer to the same request
    /// is.
    fn request(&self, req: &PermissionRequest<'_>) -> (r: bool)
        ensures
            match verdict(self.rules(), self.sandbox(), req@) {
                Verdict::Allow => r,
                Verdict::Deny => !r,
                Verdict::Ask => call_ensures(P::request, (&self.asker(), req), r),
            },
    {
        match self.decide(req) {
            Verdict::Allow => true,
            Verdict::Deny => false,
            Verdict::Ask => self.asker.request(req),
        }
    }
}

// ---- what the rules do ----------------------------------------------------------------------

/// An allowing rule allows: when the first rule that applies allows, the request is granted without
/// asking, unless it is a write that leaves the sandbox.
pub proof fn an_allow_rule_grants(
    rules: Seq<RuleView>,
    sandbox: Option<Seq<char>>,
    req: AskView,
    at: int,
)
    requires
        0 <= at < rules.len(),
        applies(rules[at], req.tool, req.key),
        rules[at].allow,
        forall|k: int| 0 <= k < at ==> !applies(#[trigger] rules[k], req.tool, req.key),
        req.risk != Risk::Write || !paths::absolute(req.key) || sandbox is None || paths::within(
            req.key,
            sandbox->0,
        ),
    ensures
        verdict(rules, sandbox, req) == Verdict::Allow,
{
    lemma_first_decides(rules, req.tool, req.key, at, 0);
}

/// A rule speaks of its own tool, or of every tool where it is for `*`; of any other it says nothing.
pub proof fn a_rule_speaks_of_its_tool(rule: RuleView, tool: Seq<char>, other: Seq<char>, key: Seq<char>)
    requires
        rule.tool == tool,
        patterns::regex_error(glob_pattern(rule.glob)) is None,
    ensures
        applies(rule, tool, key) <==> patterns::matched(glob_pattern(rule.glob), key),
        tool != seq!['*'] && other != tool ==> !applies(rule, other, key),
        tool == seq!['*'] ==> (applies(rule, other, key) <==> applies(rule, tool, key)),
{
    reveal_strlit("*");
    assert("*"@ =~= seq!['*']);
}

/// What the characters of a glob become in the regular expression over the whole key: a star matches
/// anything, a question mark one character, and any other character itself, escaped where a regular
/// expression would read it otherwise.
pub proof fn a_glob_covers_the_whole_key(glob: Seq<char>)
    ensures
        glob_pattern(glob) == seq!['^'] + glob.map_values(
            |c: char|
                if c == '*' {
                    seq!['.', '*']
                } else if c == '?' {
                    seq!['.']
                } else if ".+()|^$[]{}\\"@.contains(c) {
                    seq!['\\', c]
                } else {
                    seq![c]
                },
        ).flatten() + seq!['$'],
{
    reveal_strlit("^");
    reveal_strlit("$");
    assert("^"@ =~= seq!['^']);
    assert("$"@ =~= seq!['$']);
    lemma_glob_body(glob, glob.len() as int);
    assert(glob.take(glob.len() as int) =~= glob);
}

proof fn lemma_glob_body(glob: Seq<char>, n: int)
    requires
        0 <= n <= glob.len(),
    ensures
        glob_body(glob, n) == glob.take(n).map_values(
            |c: char|
                if c == '*' {
                    seq!['.', '*']
                } else if c == '?' {
                    seq!['.']
                } else if ".+()|^$[]{}\\"@.contains(c) {
                    seq!['\\', c]
                } else {
                    seq![c]
                },
        ).flatten(),
    decreases n,
{
    let write = |c: char|
        if c == '*' {
            seq!['.', '*']
        } else if c == '?' {
            seq!['.']
        } else if ".+()|^$[]{}\\"@.contains(c) {
            seq!['\\', c]
        } else {
            seq![c]
        };
    let some = glob.take(n).map_values(write);
    if n <= 0 {
        assert(some =~= Seq::empty());
    } else {
        lemma_glob_body(glob, n - 1);
        let fewer = glob.take(n - 1).map_values(write);
        let c = glob[n - 1];
        assert(some =~= fewer.push(write(c)));
        fewer.lemma_flatten_push(write(c));
        reveal_strlit(".*");
        reveal_strlit(".");
        reveal_strlit(".+()|^$[]{}\\");
        let all = ".+()|^$[]{}\\"@;
        assert(all[0] == '.' && all[1] == '+' && all[2] == '(' && all[3] == ')' && all[4] == '|');
        assert(all[5] == '^' && all[6] == '$' && all[7] == '[' && all[8] == ']' && all[9] == '{');
        assert(all[10] == '}' && all[11] == '\\');
        assert(all.len() == 12);
        if all.contains(c) {
            let i = choose|i: int| 0 <= i < all.len() && all[i] == c;
            assert(is_special(c));
        }
        assert(is_special(c) ==> all.contains(c));
        assert(glob_char(c) =~= write(c));
    }
}

/// An entry names a tool and a glob with a colon between them; without a colon it is a glob for any
/// tool.
pub proof fn an_entry_reads_as_its_rule(tool: Seq<char>, glob: Seq<char>, allow: bool)
    requires
        forall|i: int| 0 <= i < tool.len() ==> tool[i] != ':',
    ensures
        rule_in(tool + seq![':'] + glob, allow) == (RuleView { tool, glob, allow }),
        rule_in(tool, allow) == (RuleView { tool: seq!['*'], glob: tool, allow }),
{
    let entry = tool + seq![':'] + glob;
    text::lemma_next_char(entry, ':', 0);
    text::lemma_next_char(tool, ':', 0);
    let k = tool.len() as int;
    assert(entry[k] == ':');
    let j = text::next_char(entry, ':', 0);
    if j < k {
        assert(entry[j] == tool[j]);
    }
    assert(j == k);
    assert(entry.take(k) =~= tool);
    assert(entry.skip(k + 1) =~= glob);
    reveal_strlit("*");
    assert("*"@ =~= seq!['*']);
}

/// What a configuration allows is granted where none of its denials applies, unless it is a write that
/// leaves the sandbox.
pub proof fn a_configured_allowance_grants(
    c: PermissionView,
    sandbox: Option<Seq<char>>,
    req: AskView,
    at: int,
)
    requires
        0 <= at < c.allow.len(),
        applies(rule_in(c.allow[at], true), req.tool, req.key),
        forall|k: int|
            0 <= k < c.deny.len() ==> !applies(
                rule_in(#[trigger] c.deny[k], false),
                req.tool,
                req.key,
            ),
        req.risk != Risk::Write || !paths::absolute(req.key) || sandbox is None || paths::within(
            req.key,
            sandbox->0,
        ),
    ensures
        verdict(configured(c), sandbox, req) == Verdict::Allow,
{
    lemma_allowance_decides(c, req, at, 0);
}

proof fn lemma_allowance_decides(c: PermissionView, req: AskView, at: int, i: int)
    requires
        0 <= at < c.allow.len(),
        0 <= i <= c.deny.len() + at,
        applies(rule_in(c.allow[at], true), req.tool, req.key),
        forall|k: int|
            0 <= k < c.deny.len() ==> !applies(
                rule_in(#[trigger] c.deny[k], false),
                req.tool,
                req.key,
            ),
    ensures
        decision_from(configured(c), req.tool, req.key, i) == Some(true),
    decreases c.deny.len() + at - i,
{
    let rules = configured(c);
    if i < c.deny.len() {
        assert(rules[i] == rule_in(c.deny[i], false));
        lemma_allowance_decides(c, req, at, i + 1);
    } else {
        assert(rules[i] == rule_in(c.allow[i - c.deny.len()], true));
        if i < c.deny.len() + at {
            if !applies(rules[i], req.tool, req.key) {
                lemma_allowance_decides(c, req, at, i + 1);
            }
        }
    }
}

/// What a configuration neither denies nor allows is asked, in every mode but `auto`.
pub proof fn an_unlisted_request_is_asked(
    c: PermissionView,
    sandbox: Option<Seq<char>>,
    req: AskView,
)
    requires
        c.mode != Some("auto"@),
        forall|k: int|
            0 <= k < c.deny.len() ==> !applies(
                rule_in(#[trigger] c.deny[k], false),
                req.tool,
                req.key,
            ),
        forall|k: int|
            0 <= k < c.allow.len() ==> !applies(
                rule_in(#[trigger] c.allow[k], true),
                req.tool,
                req.key,
            ),
    ensures
        verdict(configured(c), sandbox, req) == Verdict::Ask,
{
    let rules = configured(c);
    assert forall|k: int| 0 <= k < rules.len() implies !applies(
        #[trigger] rules[k],
        req.tool,
        req.key,
    ) by {
        if k < c.deny.len() {
            assert(rules[k] == rule_in(c.deny[k], false));
        } else {
            assert(rules[k] == rule_in(c.allow[k - c.deny.len()], true));
        }
    }
    an_unmatched_request_is_asked(rules, sandbox, req);
}

} // verus!
