//! What the command line decides: the route to the model, the prompts, what is printed.
use crate::agent_loop::RunEnd;
use crate::json::{Json, JsonObject, JsonView, Number, NumberView};
use crate::paths;
use crate::paths::join_path;
use crate::session;
use crate::session::CURRENT_SESSION_VERSION;
use crate::skills::{SkillWarning, SkillWarningView};
use crate::text;
use crate::text::{
    clone_all, clone_opt_string, clone_strings, concat, decimal_text, find_text_at, join_strings,
    same_text, slice_string, split_text, to_chars, trim_text, upper_text, Space,
};
use crate::types::{
    AssistantBlock, AssistantBlockView, AssistantMessage, AssistantMessageView, Message, MessageView, Model, ModelView,
    StopReason,
};
use vstd::prelude::*;

verus! {

// ------------------------------------------------------------------ printable text

/// Whether a character is a control character other than the tab and the line feed.
pub open spec fn is_control(c: char) -> bool {
    c as int <= 0x08 || 0x0B <= c as int <= 0x1F || 0x7F <= c as int <= 0x9F
}

/// Where an escape sequence that began with `[` ends: behind its final character.
pub open spec fn sequence_end(s: Seq<char>, i: int) -> int
    decreases s.len() - i,
{
    if i < 0 || i >= s.len() {
        s.len() as int
    } else if 0x40 <= s[i] as int <= 0x7e {
        i + 1
    } else {
        sequence_end(s, i + 1)
    }
}

/// Where an escape sequence that began with `]` ends: behind the bell, or behind an escape and a
/// backslash.
pub open spec fn command_end(s: Seq<char>, i: int) -> int
    decreases s.len() - i,
{
    if i < 0 || i >= s.len() {
        s.len() as int
    } else if s[i] as int == 0x07 {
        i + 1
    } else if s[i] as int == 0x1b && i + 1 < s.len() && s[i + 1] == '\\' {
        i + 2
    } else {
        command_end(s, i + 1)
    }
}

/// Where an escape sequence ends whose escape character stands right before `i`.
pub open spec fn escape_end(s: Seq<char>, i: int) -> int {
    if i < 0 || i >= s.len() {
        s.len() as int
    } else if s[i] == '[' {
        sequence_end(s, i + 1)
    } else if s[i] == ']' {
        command_end(s, i + 1)
    } else {
        i + 1
    }
}

proof fn lemma_ends(s: Seq<char>, i: int)
    requires
        0 <= i <= s.len(),
    ensures
        i <= sequence_end(s, i) <= s.len(),
        i <= command_end(s, i) <= s.len(),
    decreases s.len() - i,
{
    if i < s.len() {
        lemma_ends(s, i + 1);
    }
}

proof fn lemma_escape_ends(s: Seq<char>, i: int)
    requires
        0 <= i <= s.len(),
    ensures
        i <= escape_end(s, i) <= s.len(),
{
    if i < s.len() {
        lemma_ends(s, i + 1);
    }
}

/// The text from index `i` on without escape sequences and control characters.
pub open spec fn printable_from(s: Seq<char>, i: int) -> Seq<char>
    decreases s.len() - i,
    via printable_from_ends
{
    if i < 0 || i >= s.len() {
        Seq::empty()
    } else if s[i] as int == 0x1b {
        printable_from(s, escape_end(s, i + 1))
    } else if is_control(s[i]) {
        printable_from(s, i + 1)
    } else {
        seq![s[i]] + printable_from(s, i + 1)
    }
}

#[via_fn]
proof fn printable_from_ends(s: Seq<char>, i: int) {
    if 0 <= i < s.len() {
        lemma_escape_ends(s, i + 1);
    }
}

/// The text without escape sequences and control characters.
pub open spec fn printable(s: Seq<char>) -> Seq<char> {
    printable_from(s, 0)
}

fn code(c: char) -> (r: u32)
    ensures
        r as int == c as int,
{
    c as u32
}

fn find_sequence_end(v: &Vec<char>, from: usize) -> (r: usize)
    requires
        from <= v@.len(),
    ensures
        r as int == sequence_end(v@, from as int),
        r <= v@.len(),
{
    let mut i: usize = from;
    while i < v.len()
        invariant
            i <= v@.len(),
            sequence_end(v@, from as int) == sequence_end(v@, i as int),
        decreases v@.len() - i,
    {
        let c = code(v[i]);
        if 0x40 <= c && c <= 0x7e {
            return i + 1;
        }
        i += 1;
    }
    i
}

fn find_command_end(v: &Vec<char>, from: usize) -> (r: usize)
    requires
        from <= v@.len(),
    ensures
        r as int == command_end(v@, from as int),
        r <= v@.len(),
{
    let n: usize = v.len();
    let mut i: usize = from;
    while i < n
        invariant
            i <= n,
            n == v@.len(),
            command_end(v@, from as int) == command_end(v@, i as int),
        decreases n - i,
    {
        let c = code(v[i]);
        if c == 0x07 {
            return i + 1;
        }
        if c == 0x1b && i + 1 < n && v[i + 1] == '\\' {
            return i + 2;
        }
        i += 1;
    }
    i
}

/// The text without escape sequences, and without control characters other than the tab and the
/// line feed.
pub fn sanitize_text(s: &str) -> (r: String)
    ensures
        r@ == printable(s@),
{
    let v = to_chars(s);
    let n: usize = v.len();
    let mut out = String::new();
    let mut i: usize = 0;
    assert(out@ + printable_from(v@, 0) =~= printable(s@));
    while i < n
        invariant
            i <= n,
            n == v@.len(),
            v@ == s@,
            out@ + printable_from(v@, i as int) == printable(s@),
        decreases n - i,
    {
        let c = v[i];
        let k = code(c);
        if k == 0x1b {
            proof {
                lemma_escape_ends(v@, i as int + 1);
            }
            i += 1;
            if i < n {
                if v[i] == '[' {
                    i = find_sequence_end(&v, i + 1);
                } else if v[i] == ']' {
                    i = find_command_end(&v, i + 1);
                } else {
                    i += 1;
                }
            }
        } else {
            let control = k <= 0x08 || (0x0B <= k && k <= 0x1F) || (0x7F <= k && k <= 0x9F);
            if !control {
                proof {
                    assert(out@ + (seq![c] + printable_from(v@, i as int + 1)) =~= out@.push(c)
                        + printable_from(v@, i as int + 1));
                }
                out.push(c);
            }
            i += 1;
        }
    }
    assert(out@ + printable_from(v@, n as int) =~= out@);
    out
}

// ------------------------------------------------------------------ the environment

/// A variable of the environment.
#[derive(Debug, PartialEq)]
pub struct EnvVar {
    pub name: String,
    pub value: String,
}

/// What a [`EnvVar`] stands for.
#[verifier::ext_equal]
pub struct EnvVarView {
    pub name: Seq<char>,
    pub value: Seq<char>,
}

impl View for EnvVar {
    type V = EnvVarView;

    open spec fn view(&self) -> EnvVarView {
        EnvVarView {
            name: self.name@,
            value: self.value@,
        }
    }
}

impl Clone for EnvVar {
    fn clone(&self) -> (r: EnvVar)
        ensures
            r@ == self@,
    {
        EnvVar {
            name: self.name.clone(),
            value: self.value.clone(),
        }
    }
}

/// The value of a variable, looking from index `i` on.
pub open spec fn value_from(env: Seq<EnvVarView>, name: Seq<char>, i: int) -> Option<Seq<char>>
    decreases env.len() - i,
{
    if i < 0 || i >= env.len() {
        None
    } else if env[i].name == name {
        Some(env[i].value)
    } else {
        value_from(env, name, i + 1)
    }
}

/// The value of a variable.
pub open spec fn value_of(env: Seq<EnvVarView>, name: Seq<char>) -> Option<Seq<char>> {
    value_from(env, name, 0)
}

/// The value of a variable that is set to something.
pub open spec fn filled(env: Seq<EnvVarView>, name: Seq<char>) -> Option<Seq<char>> {
    match value_of(env, name) {
        Some(v) => if v.len() > 0 {
            Some(v)
        } else {
            None
        },
        None => None,
    }
}

/// The first of two.
pub open spec fn or_else(a: Option<Seq<char>>, b: Option<Seq<char>>) -> Option<Seq<char>> {
    match a {
        Some(s) => Some(s),
        None => b,
    }
}

/// The value of a variable.
pub fn env_value(env: &Vec<EnvVar>, name: &str) -> (r: Option<String>)
    ensures
        text::opt_view(r) == value_of(text::views(env@), name@),
{
    let ghost all = text::views(env@);
    let mut i: usize = 0;
    while i < env.len()
        invariant
            i <= env@.len(),
            all == text::views(env@),
            value_of(all, name@) == value_from(all, name@, i as int),
        decreases env@.len() - i,
    {
        assert(all[i as int] == env@[i as int]@);
        if same_text(&env[i].name, name) {
            return Some(env[i].value.clone());
        }
        i += 1;
    }
    None
}

fn find_filled(env: &Vec<EnvVar>, name: &str) -> (r: Option<String>)
    ensures
        text::opt_view(r) == filled(text::views(env@), name@),
{
    match env_value(env, name) {
        Some(v) => if to_chars(&v).len() > 0 {
            Some(v)
        } else {
            None
        },
        None => None,
    }
}

/// The first value of several names that is not empty.
pub open spec fn first_filled(env: Seq<EnvVarView>, names: Seq<Seq<char>>, i: int) -> Option<
    Seq<char>,
>
    decreases names.len() - i,
{
    if i < 0 || i >= names.len() {
        None
    } else {
        or_else(filled(env, names[i]), first_filled(env, names, i + 1))
    }
}

/// The first value of several names that is not empty.
pub fn env_first(env: &Vec<EnvVar>, names: &Vec<&str>) -> (r: Option<String>)
    ensures
        text::opt_view(r) == first_filled(text::views(env@), text::views(names@), 0),
{
    let ghost all = text::views(env@);
    let ghost keys = text::views(names@);
    let mut i: usize = 0;
    while i < names.len()
        invariant
            i <= names@.len(),
            all == text::views(env@),
            keys == text::views(names@),
            first_filled(all, keys, 0) == first_filled(all, keys, i as int),
        decreases names@.len() - i,
    {
        assert(keys[i as int] == names@[i as int]@);
        match find_filled(env, names[i]) {
            Some(v) => {
                return Some(v);
            },
            None => {},
        }
        i += 1;
    }
    None
}

// ------------------------------------------------------------------ the route

/// Where the host of an address ends that begins at `i`: at a slash or a colon.
pub open spec fn host_end(s: Seq<char>, i: int) -> int
    decreases s.len() - i,
{
    if i < 0 || i >= s.len() {
        s.len() as int
    } else if s[i] == '/' || s[i] == ':' {
        i
    } else {
        host_end(s, i + 1)
    }
}

proof fn lemma_host_end(s: Seq<char>, i: int)
    requires
        0 <= i <= s.len(),
    ensures
        i <= host_end(s, i) <= s.len(),
    decreases s.len() - i,
{
    if i < s.len() {
        lemma_host_end(s, i + 1);
    }
}

/// The host of an address: what stands behind its scheme.
pub open spec fn host_of(url: Seq<char>) -> Option<Seq<char>> {
    match text::find_text(url, "://"@, 0) {
        Some(i) => Some(url.subrange(i + 3, host_end(url, i + 3))),
        None => None,
    }
}

/// Whether a host is `openrouter.ai` or one below it.
pub open spec fn openrouter_host(host: Seq<char>) -> bool {
    host == "openrouter.ai"@ || text::stands_at(host, host.len() - 14, ".openrouter.ai"@)
}

/// Whether an address leads to `openrouter.ai`, by its host.
pub open spec fn openrouter(url: Seq<char>) -> bool {
    match host_of(url) {
        Some(h) => openrouter_host(h),
        None => false,
    }
}

/// Whether an address leads to `openrouter.ai`, by its host.
pub fn is_openrouter(base_url: &str) -> (r: bool)
    ensures
        r == openrouter(base_url@),
{
    proof {
        reveal_strlit("://");
        assert("://"@.len() == 3);
        reveal_strlit(".openrouter.ai");
        assert(".openrouter.ai"@.len() == 14);
    }
    let v = to_chars(base_url);
    let n: usize = v.len();
    match find_text_at(&v, "://", 0) {
        None => false,
        Some(i) => {
            proof {
                text::lemma_find_text(v@, "://"@, 0);
                assert(text::stands_at(v@, i as int, "://"@));
                lemma_host_end(v@, i as int + 3);
            }
            let from: usize = i + 3;
            let mut to: usize = from;
            while to < n && v[to] != '/' && v[to] != ':'
                invariant
                    from <= to <= n,
                    n == v@.len(),
                    host_end(v@, from as int) == host_end(v@, to as int),
                decreases n - to,
            {
                to += 1;
            }
            let host = slice_string(&v, from, to);
            assert(host@ == base_url@.subrange(from as int, host_end(base_url@, from as int)));
            let h = to_chars(&host);
            let m: usize = h.len();
            same_text(&host, "openrouter.ai") || (m >= 14 && text::is_at(
                &h,
                m - 14,
                ".openrouter.ai",
            ))
        },
    }
}

/// A header of the requests.
#[derive(Debug, PartialEq)]
pub struct Header {
    pub name: String,
    pub value: String,
}

/// What a [`Header`] stands for.
#[verifier::ext_equal]
pub struct HeaderView {
    pub name: Seq<char>,
    pub value: Seq<char>,
}

impl View for Header {
    type V = HeaderView;

    open spec fn view(&self) -> HeaderView {
        HeaderView {
            name: self.name@,
            value: self.value@,
        }
    }
}

impl Clone for Header {
    fn clone(&self) -> (r: Header)
        ensures
            r@ == self@,
    {
        Header {
            name: self.name.clone(),
            value: self.value.clone(),
        }
    }
}

/// What the command line says of the route.
#[derive(Debug)]
pub struct RouteArgs {
    pub model: Option<String>,
    pub base_url: Option<String>,
    /// The name of the variable that holds the key.
    pub api_key_env: Option<String>,
    pub provider: Option<String>,
    pub headers: Vec<String>,
    /// The tools in use, separated by commas.
    pub tools: String,
}

/// What a [`RouteArgs`] stands for.
#[verifier::ext_equal]
pub struct RouteArgsView {
    pub model: Option<Seq<char>>,
    pub base_url: Option<Seq<char>>,
    pub api_key_env: Option<Seq<char>>,
    pub provider: Option<Seq<char>>,
    pub headers: Seq<Seq<char>>,
    pub tools: Seq<char>,
}

impl View for RouteArgs {
    type V = RouteArgsView;

    open spec fn view(&self) -> RouteArgsView {
        RouteArgsView {
            model: text::opt_view(self.model),
            base_url: text::opt_view(self.base_url),
            api_key_env: text::opt_view(self.api_key_env),
            provider: text::opt_view(self.provider),
            headers: text::views(self.headers@),
            tools: self.tools@,
        }
    }
}

impl Clone for RouteArgs {
    fn clone(&self) -> (r: RouteArgs)
        ensures
            r@ == self@,
    {
        RouteArgs {
            model: clone_opt_string(&self.model),
            base_url: clone_opt_string(&self.base_url),
            api_key_env: clone_opt_string(&self.api_key_env),
            provider: clone_opt_string(&self.provider),
            headers: clone_strings(&self.headers),
            tools: self.tools.clone(),
        }
    }
}

/// The route to the model.
#[derive(Debug)]
pub struct Route {
    pub model: Model,
    pub api_key: Option<String>,
    pub extra_headers: Vec<Header>,
}

/// What a [`Route`] stands for.
#[verifier::ext_equal]
pub struct RouteView {
    pub model: ModelView,
    pub api_key: Option<Seq<char>>,
    pub extra_headers: Seq<HeaderView>,
}

impl View for Route {
    type V = RouteView;

    open spec fn view(&self) -> RouteView {
        RouteView {
            model: self.model@,
            api_key: text::opt_view(self.api_key),
            extra_headers: text::views(self.extra_headers@),
        }
    }
}

impl Clone for Route {
    fn clone(&self) -> (r: Route)
        ensures
            r@ == self@,
    {
        Route {
            model: self.model.clone(),
            api_key: clone_opt_string(&self.api_key),
            extra_headers: clone_all(&self.extra_headers),
        }
    }
}

/// What is wrong with the route.
#[derive(Debug)]
pub enum RouteError {
    /// There is no model.
    NoModel,
    /// There is no address.
    NoBaseUrl,
    /// The variable of the key is not set.
    KeyNotSet(String),
    /// A header has no colon.
    BadHeader(String),
    /// There is no such tool.
    UnknownTool(String),
}

/// What a [`RouteError`] stands for.
#[verifier::ext_equal]
pub enum RouteErrorView {
    NoModel,
    NoBaseUrl,
    KeyNotSet(Seq<char>),
    BadHeader(Seq<char>),
    UnknownTool(Seq<char>),
}

impl View for RouteError {
    type V = RouteErrorView;

    open spec fn view(&self) -> RouteErrorView {
        match self {
            RouteError::NoModel => RouteErrorView::NoModel,
            RouteError::NoBaseUrl => RouteErrorView::NoBaseUrl,
            RouteError::KeyNotSet(a) => RouteErrorView::KeyNotSet(a@),
            RouteError::BadHeader(a) => RouteErrorView::BadHeader(a@),
            RouteError::UnknownTool(a) => RouteErrorView::UnknownTool(a@),
        }
    }
}

impl Clone for RouteError {
    fn clone(&self) -> (r: RouteError)
        ensures
            r@ == self@,
    {
        match self {
            RouteError::NoModel => RouteError::NoModel,
            RouteError::NoBaseUrl => RouteError::NoBaseUrl,
            RouteError::KeyNotSet(a) => RouteError::KeyNotSet(a.clone()),
            RouteError::BadHeader(a) => RouteError::BadHeader(a.clone()),
            RouteError::UnknownTool(a) => RouteError::UnknownTool(a.clone()),
        }
    }
}

/// The pieces between commas, without white space around them and without empty ones.
pub open spec fn listed(pieces: Seq<Seq<char>>) -> Seq<Seq<char>>
    decreases pieces.len(),
{
    if pieces.len() == 0 {
        Seq::empty()
    } else {
        let have = listed(pieces.drop_last());
        let t = text::trim(Space::Unicode, pieces.last());
        if t.len() > 0 {
            have.push(t)
        } else {
            have
        }
    }
}

/// The names in a list that is separated by commas.
pub open spec fn names_in(s: Seq<char>) -> Seq<Seq<char>> {
    listed(text::split(s, ','))
}

/// The names in a list that is separated by commas.
pub fn list_names(s: &str) -> (r: Vec<String>)
    ensures
        text::views(r@) == names_in(s@),
{
    let pieces = split_text(s, ',');
    let ghost all = text::split(s@, ',');
    let mut out: Vec<String> = Vec::new();
    let mut i: usize = 0;
    proof {
        assert(all.take(0) =~= Seq::<Seq<char>>::empty());
        assert(text::views(out@) =~= Seq::empty());
    }
    while i < pieces.len()
        invariant
            i <= pieces@.len(),
            all == text::views(pieces@),
            text::views(out@) == listed(all.take(i as int)),
        decreases pieces@.len() - i,
    {
        proof {
            assert(all.take(i as int + 1).drop_last() =~= all.take(i as int));
            assert(all.take(i as int + 1).last() == pieces@[i as int]@);
        }
        let t = trim_text(Space::Unicode, &pieces[i]);
        if to_chars(&t).len() > 0 {
            proof {
                text::lemma_views_push(out@, t);
            }
            out.push(t);
        }
        i += 1;
    }
    assert(all.take(i as int) =~= all);
    out
}

/// Whether there is a tool of that name.
pub open spec fn is_tool_name(s: Seq<char>) -> bool {
    s == "read"@ || s == "write"@ || s == "edit"@ || s == "bash"@ || s == "grep"@ || s == "glob"@
}

fn knows_tool(s: &str) -> (r: bool)
    ensures
        r == is_tool_name(s@),
{
    same_text(s, "read") || same_text(s, "write") || same_text(s, "edit") || same_text(s, "bash")
        || same_text(s, "grep") || same_text(s, "glob")
}

/// The first name from index `i` on that no tool has.
pub open spec fn unknown_from(names: Seq<Seq<char>>, i: int) -> Option<Seq<char>>
    decreases names.len() - i,
{
    if i < 0 || i >= names.len() {
        None
    } else if is_tool_name(names[i]) {
        unknown_from(names, i + 1)
    } else {
        Some(names[i])
    }
}

fn find_unknown(names: &Vec<String>) -> (r: Option<String>)
    ensures
        text::opt_view(r) == unknown_from(text::views(names@), 0),
{
    let ghost all = text::views(names@);
    let mut i: usize = 0;
    while i < names.len()
        invariant
            i <= names@.len(),
            all == text::views(names@),
            unknown_from(all, 0) == unknown_from(all, i as int),
        decreases names@.len() - i,
    {
        assert(all[i as int] == names@[i as int]@);
        if !knows_tool(&names[i]) {
            return Some(names[i].clone());
        }
        i += 1;
    }
    None
}

/// The headers of the lines from index `i` on, or the first line without a colon.
pub open spec fn headers_from(lines: Seq<Seq<char>>, i: int) -> Result<Seq<HeaderView>, Seq<char>>
    decreases lines.len() - i,
{
    if i < 0 || i >= lines.len() {
        Ok(Seq::empty())
    } else {
        match header_of(lines[i]) {
            None => Err(lines[i]),
            Some(h) => match headers_from(lines, i + 1) {
                Ok(rest) => Ok(seq![h] + rest),
                Err(e) => Err(e),
            },
        }
    }
}

/// The header of a line: what stands on either side of its first colon.
pub open spec fn header_of(line: Seq<char>) -> Option<HeaderView> {
    match text::find_char(line, ':', 0) {
        Some(i) => Some(
            HeaderView {
                name: text::trim(Space::Unicode, line.subrange(0, i)),
                value: text::trim(Space::Unicode, line.subrange(i + 1, line.len() as int)),
            },
        ),
        None => None,
    }
}

fn read_header(line: &str) -> (r: Option<Header>)
    ensures
        text::opt_view(r) == header_of(line@),
{
    let v = to_chars(line);
    let n: usize = v.len();
    match text::find_char_at(&v, ':', 0) {
        Some(i) => {
            let name = slice_string(&v, 0, i);
            let value = slice_string(&v, i + 1, n);
            Some(
                Header {
                    name: trim_text(Space::Unicode, &name),
                    value: trim_text(Space::Unicode, &value),
                },
            )
        },
        None => None,
    }
}

fn read_headers(lines: &Vec<String>) -> (r: Result<Vec<Header>, String>)
    ensures
        match r {
            Ok(h) => headers_from(text::views(lines@), 0) == Ok::<Seq<HeaderView>, Seq<char>>(
                text::views(h@),
            ),
            Err(e) => headers_from(text::views(lines@), 0) == Err::<Seq<HeaderView>, Seq<char>>(
                e@,
            ),
        },
{
    let ghost all = text::views(lines@);
    let mut out: Vec<Header> = Vec::new();
    let mut i: usize = 0;
    proof {
        assert(text::views(out@) =~= Seq::empty());
        lemma_headers_before(Seq::empty(), all, 0);
    }
    while i < lines.len()
        invariant
            i <= lines@.len(),
            all == text::views(lines@),
            headers_from(all, 0) == headers_after(text::views(out@), all, i as int),
        decreases lines@.len() - i,
    {
        assert(all[i as int] == lines@[i as int]@);
        match read_header(&lines[i]) {
            Some(h) => {
                let ghost before = text::views(out@);
                proof {
                    text::lemma_views_push(out@, h);
                    if let Ok(rest) = headers_from(all, i as int + 1) {
                        assert(before + (seq![h@] + rest) =~= before.push(h@) + rest);
                    }
                }
                out.push(h);
            },
            None => {
                return Err(lines[i].clone());
            },
        }
        i += 1;
    }
    assert(text::views(out@) + Seq::<HeaderView>::empty() =~= text::views(out@));
    Ok(out)
}

/// Headers before those of the lines from index `i` on.
spec fn headers_after(before: Seq<HeaderView>, lines: Seq<Seq<char>>, i: int) -> Result<
    Seq<HeaderView>,
    Seq<char>,
> {
    match headers_from(lines, i) {
        Ok(rest) => Ok(before + rest),
        Err(e) => Err(e),
    }
}

proof fn lemma_headers_before(before: Seq<HeaderView>, lines: Seq<Seq<char>>, i: int)
    requires
        before.len() == 0,
    ensures
        headers_after(before, lines, i) == headers_from(lines, i),
{
    if let Ok(rest) = headers_from(lines, i) {
        assert(before + rest =~= rest);
    }
}

/// The model that is asked for.
pub open spec fn model_id(args: RouteArgsView, env: Seq<EnvVarView>) -> Option<Seq<char>> {
    or_else(args.model, first_filled(env, seq!["ARA_MODEL"@, "ARA_TEST_MODEL_ID"@], 0))
}

/// The address that is asked.
pub open spec fn base_url(args: RouteArgsView, env: Seq<EnvVarView>) -> Option<Seq<char>> {
    or_else(
        args.base_url,
        first_filled(env, seq!["ARA_BASE_URL"@, "ARA_TEST_BASE_URL"@, "OPENROUTER_BASE_URL"@], 0),
    )
}

/// The key that goes to an address: that of the variable that is named, or else the one for
/// `openrouter.ai` to that address alone, and the others to the others.
pub open spec fn api_key(args: RouteArgsView, env: Seq<EnvVarView>, url: Seq<char>) -> Option<
    Seq<char>,
> {
    match args.api_key_env {
        Some(name) => value_of(env, name),
        None => if openrouter(url) {
            first_filled(env, seq!["OPENROUTER_API_KEY"@], 0)
        } else {
            first_filled(env, seq!["ARA_API_KEY"@, "ARA_TEST_API_KEY"@], 0)
        },
    }
}

/// The route that the command line and the environment ask for.
pub open spec fn route_of(args: RouteArgsView, env: Seq<EnvVarView>) -> Result<
    RouteView,
    RouteErrorView,
> {
    match (model_id(args, env), base_url(args, env)) {
        (None, _) => Err(RouteErrorView::NoModel),
        (Some(_), None) => Err(RouteErrorView::NoBaseUrl),
        (Some(id), Some(url)) => if args.api_key_env is Some && api_key(args, env, url) is None {
            Err(RouteErrorView::KeyNotSet(args.api_key_env.unwrap()))
        } else {
            match headers_from(args.headers, 0) {
                Err(line) => Err(RouteErrorView::BadHeader(line)),
                Ok(extra_headers) => match unknown_from(names_in(args.tools), 0) {
                    Some(name) => Err(RouteErrorView::UnknownTool(name)),
                    None => Ok(
                        RouteView {
                            model: ModelView {
                                id,
                                api: "openai-completions"@,
                                provider: match args.provider {
                                    Some(p) => p,
                                    None => if openrouter(url) {
                                        "openrouter"@
                                    } else {
                                        "openai-compatible"@
                                    },
                                },
                                base_url: url,
                                reasoning: false,
                                max_tokens: None,
                            },
                            api_key: api_key(args, env, url),
                            extra_headers,
                        },
                    ),
                },
            }
        },
    }
}

fn find_model(args: &RouteArgs, env: &Vec<EnvVar>) -> (r: Option<String>)
    ensures
        text::opt_view(r) == model_id(args@, text::views(env@)),
{
    match &args.model {
        Some(m) => Some(m.clone()),
        None => {
            let names = vec!["ARA_MODEL", "ARA_TEST_MODEL_ID"];
            assert(text::views(names@) =~= seq!["ARA_MODEL"@, "ARA_TEST_MODEL_ID"@]);
            env_first(env, &names)
        },
    }
}

fn find_base_url(args: &RouteArgs, env: &Vec<EnvVar>) -> (r: Option<String>)
    ensures
        text::opt_view(r) == base_url(args@, text::views(env@)),
{
    match &args.base_url {
        Some(m) => Some(m.clone()),
        None => {
            let names = vec!["ARA_BASE_URL", "ARA_TEST_BASE_URL", "OPENROUTER_BASE_URL"];
            assert(text::views(names@) =~= seq![
                "ARA_BASE_URL"@,
                "ARA_TEST_BASE_URL"@,
                "OPENROUTER_BASE_URL"@,
            ]);
            env_first(env, &names)
        },
    }
}

fn find_key(args: &RouteArgs, env: &Vec<EnvVar>, url: &str) -> (r: Option<String>)
    ensures
        text::opt_view(r) == api_key(args@, text::views(env@), url@),
{
    match &args.api_key_env {
        Some(name) => env_value(env, name),
        None => if is_openrouter(url) {
            let names = vec!["OPENROUTER_API_KEY"];
            assert(text::views(names@) =~= seq!["OPENROUTER_API_KEY"@]);
            env_first(env, &names)
        } else {
            let names = vec!["ARA_API_KEY", "ARA_TEST_API_KEY"];
            assert(text::views(names@) =~= seq!["ARA_API_KEY"@, "ARA_TEST_API_KEY"@]);
            env_first(env, &names)
        },
    }
}

/// The route that the command line and the environment ask for.
pub fn resolve_route(args: &RouteArgs, env: &Vec<EnvVar>) -> (r: Result<Route, RouteError>)
    ensures
        match r {
            Ok(x) => route_of(args@, text::views(env@)) == Ok::<RouteView, RouteErrorView>(x@),
            Err(e) => route_of(args@, text::views(env@)) == Err::<RouteView, RouteErrorView>(e@),
        },
{
    let id = match find_model(args, env) {
        Some(m) => m,
        None => {
            return Err(RouteError::NoModel);
        },
    };
    let url = match find_base_url(args, env) {
        Some(u) => u,
        None => {
            return Err(RouteError::NoBaseUrl);
        },
    };
    let api_key = find_key(args, env, &url);
    match &args.api_key_env {
        Some(name) => {
            if api_key.is_none() {
                return Err(RouteError::KeyNotSet(name.clone()));
            }
        },
        None => {},
    }
    let extra_headers = match read_headers(&args.headers) {
        Ok(h) => h,
        Err(line) => {
            return Err(RouteError::BadHeader(line));
        },
    };
    match find_unknown(&list_names(&args.tools)) {
        Some(name) => {
            return Err(RouteError::UnknownTool(name));
        },
        None => {},
    }
    let provider = match &args.provider {
        Some(p) => p.clone(),
        None => if is_openrouter(&url) {
            "openrouter".to_string()
        } else {
            "openai-compatible".to_string()
        },
    };
    Ok(
        Route {
            model: Model {
                id,
                api: "openai-completions".to_string(),
                provider,
                base_url: url,
                reasoning: false,
                max_tokens: None,
            },
            api_key,
            extra_headers,
        },
    )
}

/// A model as the journal names it.
pub open spec fn model_name(m: ModelView) -> Seq<char> {
    m.provider + "/"@ + m.id
}

/// A model as the journal names it.
pub fn model_ref(m: &Model) -> (r: String)
    ensures
        r@ == model_name(m@),
{
    let mut s = m.provider.clone();
    s.append("/");
    s.append(&m.id);
    s
}

// ------------------------------------------------------------------ prompts and places

/// The prompts, what came on the standard input before the first.
pub open spec fn prompts_with(prompts: Seq<Seq<char>>, input: Option<Seq<char>>) -> Seq<Seq<char>> {
    match input {
        None => prompts,
        Some(s) => if text::trim(Space::Unicode, s).len() == 0 {
            prompts
        } else if prompts.len() == 0 {
            seq![text::trim(Space::Unicode, s)]
        } else {
            prompts.update(0, text::trim(Space::Unicode, s) + "\n"@ + prompts[0])
        },
    }
}

/// The prompts, what came on the standard input before the first.
pub fn initial_prompts(prompts: &Vec<String>, input: &Option<String>) -> (r: Vec<String>)
    ensures
        text::views(r@) == prompts_with(text::views(prompts@), text::opt_view(*input)),
{
    let mut out = clone_strings(prompts);
    let ghost all = text::views(prompts@);
    match input {
        None => out,
        Some(s) => {
            let mut t = trim_text(Space::Unicode, s);
            if to_chars(&t).len() == 0 {
                return out;
            }
            if out.len() == 0 {
                let ghost first = t@;
                out.push(t);
                assert(text::views(out@) =~= seq![first]);
                return out;
            }
            t.append("\n");
            t.append(&out[0]);
            let ghost first = t@;
            assert(out@[0]@ == all[0]) by {
                assert(text::views(out@)[0] == out@[0]@);
            }
            out.set(0, t);
            assert(text::views(out@) =~= all.update(0, first));
            out
        },
    }
}

/// The directory of the host's own files.
pub open spec fn home_of(ara_home: Option<Seq<char>>, home: Option<Seq<char>>) -> Seq<char> {
    match (ara_home, home) {
        (Some(d), _) => d,
        (None, Some(h)) => paths::joined(h, ".ara"@),
        (None, None) => ".ara"@,
    }
}

/// The directory of the host's own files.
pub fn find_home(ara_home: &Option<String>, home: &Option<String>) -> (r: String)
    ensures
        r@ == home_of(text::opt_view(*ara_home), text::opt_view(*home)),
{
    match ara_home {
        Some(d) => d.clone(),
        None => match home {
            Some(h) => join_path(h, ".ara"),
            None => ".ara".to_string(),
        },
    }
}

/// The first index from `i` on that holds no slash.
pub open spec fn slashes_end(s: Seq<char>, i: int) -> int
    decreases s.len() - i,
{
    if 0 <= i < s.len() && s[i] == '/' {
        slashes_end(s, i + 1)
    } else {
        i
    }
}

/// The text before `i` without the slashes that it ends in.
pub open spec fn slashes_start(s: Seq<char>, i: int) -> int
    decreases i,
{
    if 0 < i <= s.len() && s[i - 1] == '/' {
        slashes_start(s, i - 1)
    } else {
        i
    }
}

/// A path without slashes around it.
pub open spec fn unslashed(s: Seq<char>) -> Seq<char> {
    let from = slashes_end(s, 0);
    let to = slashes_start(s, s.len() as int);
    if from < to {
        s.subrange(from, to)
    } else {
        Seq::empty()
    }
}

/// A hyphen for what separates names in paths.
pub open spec fn hyphen(c: char) -> char {
    if c == '/' || c == '\\' || c == ':' {
        '-'
    } else {
        c
    }
}

/// The name of the directory that holds the sessions of a working directory.
pub open spec fn sessions_name(cwd: Seq<char>) -> Seq<char> {
    "--"@ + unslashed(cwd).map_values(|c: char| hyphen(c)) + "--"@
}

/// The directory that holds the sessions of a working directory.
pub open spec fn sessions_of(home: Seq<char>, cwd: Seq<char>) -> Seq<char> {
    paths::joined(paths::joined(home, "sessions"@), sessions_name(cwd))
}

fn find_unslashed(v: &Vec<char>) -> (r: Vec<char>)
    ensures
        r@ == unslashed(v@),
{
    let n: usize = v.len();
    let mut from: usize = 0;
    while from < n && v[from] == '/'
        invariant
            from <= n,
            n == v@.len(),
            slashes_end(v@, 0) == slashes_end(v@, from as int),
        decreases n - from,
    {
        from += 1;
    }
    let mut to: usize = n;
    while to > 0 && v[to - 1] == '/'
        invariant
            to <= n,
            n == v@.len(),
            slashes_start(v@, n as int) == slashes_start(v@, to as int),
        decreases to,
    {
        to -= 1;
    }
    if from < to {
        crate::number::between(v, from, to)
    } else {
        Vec::new()
    }
}

/// The directory that holds the sessions of a working directory.
pub fn default_session_dir(home: &str, cwd: &str) -> (r: String)
    ensures
        r@ == sessions_of(home@, cwd@),
{
    let inner = find_unslashed(&to_chars(cwd));
    let mut name = "--".to_string();
    let ghost before = name@;
    let ghost want = inner@.map_values(|c: char| hyphen(c));
    let mut i: usize = 0;
    assert(before + want.take(0) =~= before);
    while i < inner.len()
        invariant
            i <= inner@.len(),
            want == inner@.map_values(|c: char| hyphen(c)),
            name@ == before + want.take(i as int),
        decreases inner@.len() - i,
    {
        let c = inner[i];
        let d = if c == '/' || c == '\\' || c == ':' {
            '-'
        } else {
            c
        };
        assert(before + want.take(i as int + 1) =~= (before + want.take(i as int)).push(d));
        name.push(d);
        i += 1;
    }
    assert(want.take(i as int) =~= want);
    name.append("--");
    join_path(&join_path(home, "sessions"), &name)
}

/// A tool's name with a capital, where it begins with an ASCII character.
pub open spec fn label_of(name: Seq<char>) -> Seq<char> {
    if name.len() > 0 && (name[0] as int) < 0x80 {
        text::upper(name.take(1)) + name.skip(1)
    } else {
        Seq::empty()
    }
}

/// A tool's name with a capital, where it begins with an ASCII character.
pub fn tool_label(name: &str) -> (r: String)
    ensures
        r@ == label_of(name@),
{
    let v = to_chars(name);
    let n: usize = v.len();
    if n == 0 || code(v[0]) >= 0x80 {
        let none = String::new();
        assert(none@ =~= Seq::empty());
        return none;
    }
    let first = slice_string(&v, 0, 1);
    let rest = slice_string(&v, 1, n);
    proof {
        assert(first@ =~= name@.take(1));
        assert(rest@ =~= name@.skip(1));
    }
    concat(&upper_text(&first), &rest)
}

/// Where the tools run when a session is resumed.
#[derive(Clone, Copy, Debug, PartialEq, Eq, Structural)]
pub enum CwdChoice {
    /// Where the host runs, or where it is told to.
    Own,
    /// Where the host is told to, with a warning: the session was recorded elsewhere.
    OwnWithWarning,
    /// Where the session was recorded.
    Recorded,
    /// Nowhere: the directory of the session is gone.
    Gone,
}

/// Where the tools run when a session is resumed.
pub open spec fn cwd_choice(told: bool, recorded: bool, same: bool, is_dir: bool) -> CwdChoice {
    if !recorded {
        CwdChoice::Own
    } else if told {
        if same {
            CwdChoice::Own
        } else {
            CwdChoice::OwnWithWarning
        }
    } else if is_dir {
        CwdChoice::Recorded
    } else {
        CwdChoice::Gone
    }
}

/// Where the tools run when a session is resumed: whether the host was told a directory, whether
/// the session records one, whether they are the same, whether the recorded one is there.
pub fn choose_cwd(told: bool, recorded: bool, same: bool, is_dir: bool) -> (r: CwdChoice)
    ensures
        r == cwd_choice(told, recorded, same, is_dir),
{
    if !recorded {
        CwdChoice::Own
    } else if told {
        if same {
            CwdChoice::Own
        } else {
            CwdChoice::OwnWithWarning
        }
    } else if is_dir {
        CwdChoice::Recorded
    } else {
        CwdChoice::Gone
    }
}

/// The header that is printed for a session that is not kept.
pub open spec fn ephemeral_header(cwd: Seq<char>) -> JsonView {
    JsonView::Object(
        seq![
            ("type"@, JsonView::String("session"@)),
            ("version"@, JsonView::Number(NumberView::PosInt(CURRENT_SESSION_VERSION))),
            ("id"@, JsonView::String("ephemeral"@)),
            ("cwd"@, JsonView::String(cwd)),
        ],
    )
}

/// The header that is printed for a session that is not kept.
pub fn write_ephemeral_header(cwd: &str) -> (r: Json)
    ensures
        r@ == ephemeral_header(cwd@),
{
    let mut entries: Vec<(String, Json)> = Vec::new();
    entries.push(("type".to_string(), Json::String("session".to_string())));
    entries.push(("version".to_string(), Json::Number(Number::PosInt(CURRENT_SESSION_VERSION))));
    entries.push(("id".to_string(), Json::String("ephemeral".to_string())));
    entries.push(("cwd".to_string(), Json::String(cwd.to_string())));
    let o = JsonObject { entries };
    assert(o@ =~= ephemeral_header(cwd@)->Object_0);
    Json::Object(o)
}

// ------------------------------------------------------------------ notes

/// What is said of a session that was read.
pub open spec fn session_notes(
    path: Seq<char>,
    malformed: nat,
    undecodable: nat,
    paired: Seq<Seq<char>>,
    unpaired: Seq<Seq<char>>,
) -> Seq<Seq<char>> {
    let a = if malformed > 0 {
        seq!["ara: skipped "@ + text::decimal(malformed) + " malformed record(s) in "@ + path]
    } else {
        Seq::empty()
    };
    let b = if undecodable > 0 {
        a.push(
            "ara: "@ + text::decimal(undecodable)
                + " message(s) in the session could not be decoded and are not sent to the model"@,
        )
    } else {
        a
    };
    let c = if paired.len() > 0 {
        b.push(
            "ara: tool call(s) "@ + text::join(paired, ", "@)
                + " were interrupted before a result was recorded; their effects are unknown and they were not re-run"@,
        )
    } else {
        b
    };
    if unpaired.len() > 0 {
        c.push(
            "ara: earlier tool call(s) "@ + text::join(unpaired, ", "@)
                + " have no recorded result"@,
        )
    } else {
        c
    }
}

fn push_note(notes: &mut Vec<String>, a: &str, b: &str, c: &str)
    ensures
        text::views(final(notes)@) == text::views(old(notes)@).push(a@ + b@ + c@),
{
    let mut s = a.to_string();
    s.append(b);
    s.append(c);
    proof {
        text::lemma_views_push(notes@, s);
    }
    notes.push(s);
}

/// What is said of a session that was read.
pub fn write_session_notes(
    path: &str,
    malformed: u64,
    undecodable: u64,
    paired: &Vec<String>,
    unpaired: &Vec<String>,
) -> (r: Vec<String>)
    ensures
        text::views(r@) == session_notes(
            path@,
            malformed as nat,
            undecodable as nat,
            text::views(paired@),
            text::views(unpaired@),
        ),
{
    let mut out: Vec<String> = Vec::new();
    assert(text::views(out@) =~= Seq::empty());
    if malformed > 0 {
        let mut s = decimal_text(malformed);
        s.append(" malformed record(s) in ");
        push_note(&mut out, "ara: skipped ", &s, path);
        assert(text::views(out@) =~= seq![
            "ara: skipped "@ + text::decimal(malformed as nat) + " malformed record(s) in "@ + path@,
        ]) by {
            assert("ara: skipped "@ + (text::decimal(malformed as nat)
                + " malformed record(s) in "@) + path@ =~= "ara: skipped "@ + text::decimal(
                malformed as nat,
            ) + " malformed record(s) in "@ + path@);
        }
    }
    if undecodable > 0 {
        push_note(
            &mut out,
            "ara: ",
            &decimal_text(undecodable),
            " message(s) in the session could not be decoded and are not sent to the model",
        );
    }
    if paired.len() > 0 {
        push_note(
            &mut out,
            "ara: tool call(s) ",
            &join_strings(paired, ", "),
            " were interrupted before a result was recorded; their effects are unknown and they were not re-run",
        );
    }
    if unpaired.len() > 0 {
        push_note(
            &mut out,
            "ara: earlier tool call(s) ",
            &join_strings(unpaired, ", "),
            " have no recorded result",
        );
    }
    out
}

/// What is said of a skill that could not be used.
pub open spec fn skill_note(w: SkillWarningView) -> Seq<char> {
    if w.skill_path.len() == 0 {
        "ara: skill warning: "@ + w.message
    } else {
        "ara: skill warning ("@ + w.skill_path + "): "@ + w.message
    }
}

/// What is said of a skill that could not be used.
pub fn write_skill_note(w: &SkillWarning) -> (r: String)
    ensures
        r@ == skill_note(w@),
{
    if to_chars(&w.skill_path).len() == 0 {
        concat("ara: skill warning: ", &w.message)
    } else {
        let mut s = "ara: skill warning (".to_string();
        s.append(&w.skill_path);
        s.append("): ");
        s.append(&w.message);
        s
    }
}

// ------------------------------------------------------------------ the end

/// What is printed at the end, and the exit code.
#[derive(Debug)]
pub struct Ending {
    /// On the standard output.
    pub lines: Vec<String>,
    /// On the standard error.
    pub errors: Vec<String>,
    pub code: i32,
}

/// What a [`Ending`] stands for.
#[verifier::ext_equal]
pub struct EndingView {
    pub lines: Seq<Seq<char>>,
    pub errors: Seq<Seq<char>>,
    pub code: i32,
}

impl View for Ending {
    type V = EndingView;

    open spec fn view(&self) -> EndingView {
        EndingView {
            lines: text::views(self.lines@),
            errors: text::views(self.errors@),
            code: self.code,
        }
    }
}

impl Clone for Ending {
    fn clone(&self) -> (r: Ending)
        ensures
            r@ == self@,
    {
        Ending {
            lines: clone_strings(&self.lines),
            errors: clone_strings(&self.errors),
            code: self.code,
        }
    }
}

/// The last assistant message, looking below index `i`.
pub open spec fn last_assistant(messages: Seq<MessageView>, i: int) -> Option<AssistantMessageView>
    decreases i,
{
    if i <= 0 || i > messages.len() {
        None
    } else {
        match messages[i - 1] {
            MessageView::Assistant(a) => Some(a),
            _ => last_assistant(messages, i - 1),
        }
    }
}

/// The printed lines of an answer.
pub open spec fn answer_lines(content: Seq<AssistantBlockView>, thoughts: bool) -> Seq<Seq<char>>
    decreases content.len(),
{
    if content.len() == 0 {
        Seq::empty()
    } else {
        let have = answer_lines(content.drop_last(), thoughts);
        match content.last() {
            AssistantBlockView::Text(t) => have.push(printable(t.text)),
            AssistantBlockView::Thinking(t) => if thoughts && text::trim(
                Space::Unicode,
                t.thinking,
            ).len() > 0 {
                have.push(printable(t.thinking))
            } else {
                have
            },
            _ => have,
        }
    }
}

/// What went wrong, by the last assistant message.
pub open spec fn failure_line(last: Option<AssistantMessageView>) -> Seq<char> {
    match last {
        Some(a) => if a.stop_reason == StopReason::Error || a.stop_reason == StopReason::Aborted {
            match a.error_message {
                Some(e) => e,
                None => "Request aborted"@,
            }
        } else {
            "Request aborted"@
        },
        None => "Request aborted"@,
    }
}

/// How the host ends: with what it prints and its exit code. `as_text` tells that the answer is
/// printed as text.
pub open spec fn ending_of(
    end: RunEnd,
    messages: Seq<MessageView>,
    as_text: bool,
    thoughts: bool,
    max_model_calls: u64,
    persist_failed: bool,
) -> EndingView {
    let last = last_assistant(messages, messages.len() as int);
    let code: i32 = if persist_failed || end != RunEnd::Completed {
        1
    } else {
        0
    };
    match end {
        RunEnd::Completed => EndingView {
            lines: match last {
                Some(a) => if as_text {
                    answer_lines(a.content, thoughts)
                } else {
                    Seq::empty()
                },
                None => Seq::empty(),
            },
            errors: match last {
                Some(a) => match a.error_message {
                    Some(e) => seq![printable(e)],
                    None => Seq::empty(),
                },
                None => Seq::empty(),
            },
            code,
        },
        RunEnd::Deadline => EndingView {
            lines: Seq::empty(),
            errors: seq!["Deadline exceeded"@],
            code,
        },
        RunEnd::ModelCallBudget => EndingView {
            lines: Seq::empty(),
            errors: seq![
                "ara: model call limit reached ("@ + text::decimal(max_model_calls as nat) + ")"@,
            ],
            code,
        },
        RunEnd::Aborted => EndingView {
            lines: Seq::empty(),
            errors: seq![printable(failure_line(last))],
            code,
        },
        RunEnd::Error => EndingView {
            lines: Seq::empty(),
            errors: seq![printable(failure_line(last))],
            code,
        },
    }
}

fn find_last(messages: &Vec<Message>) -> (r: Option<usize>)
    ensures
        match r {
            Some(i) => i < messages@.len() && (messages@[i as int] matches Message::Assistant(a)
                && last_assistant(text::views(messages@), messages@.len() as int) == Some(a@)),
            None => last_assistant(text::views(messages@), messages@.len() as int) is None,
        },
{
    let ghost all = text::views(messages@);
    let mut i: usize = messages.len();
    while i > 0
        invariant
            i <= messages@.len(),
            all == text::views(messages@),
            last_assistant(all, messages@.len() as int) == last_assistant(all, i as int),
        decreases i,
    {
        assert(all[i as int - 1] == messages@[i as int - 1]@);
        match &messages[i - 1] {
            Message::Assistant(_) => {
                return Some(i - 1);
            },
            _ => {},
        }
        i -= 1;
    }
    None
}

fn write_answer(a: &AssistantMessage, thoughts: bool) -> (r: Vec<String>)
    ensures
        text::views(r@) == answer_lines(a@.content, thoughts),
{
    let ghost all = a@.content;
    let mut out: Vec<String> = Vec::new();
    let mut i: usize = 0;
    proof {
        assert(all.take(0) =~= Seq::<AssistantBlockView>::empty());
        assert(text::views(out@) =~= Seq::empty());
    }
    while i < a.content.len()
        invariant
            i <= a.content@.len(),
            all == text::views(a.content@),
            text::views(out@) == answer_lines(all.take(i as int), thoughts),
        decreases a.content@.len() - i,
    {
        proof {
            assert(all.take(i as int + 1).drop_last() =~= all.take(i as int));
            assert(all.take(i as int + 1).last() == a.content@[i as int]@);
        }
        match &a.content[i] {
            AssistantBlock::Text(t) => {
                let s = sanitize_text(&t.text);
                proof {
                    text::lemma_views_push(out@, s);
                }
                out.push(s);
            },
            AssistantBlock::Thinking(t) => {
                if thoughts && to_chars(&trim_text(Space::Unicode, &t.thinking)).len() > 0 {
                    let s = sanitize_text(&t.thinking);
                    proof {
                        text::lemma_views_push(out@, s);
                    }
                    out.push(s);
                }
            },
            _ => {},
        }
        i += 1;
    }
    assert(all.take(i as int) =~= all);
    out
}

fn one_line(s: String) -> (r: Vec<String>)
    ensures
        text::views(r@) == seq![s@],
{
    let ghost v = s@;
    let mut out: Vec<String> = Vec::new();
    out.push(s);
    assert(text::views(out@) =~= seq![v]);
    out
}

fn no_lines() -> (r: Vec<String>)
    ensures
        text::views(r@) == Seq::<Seq<char>>::empty(),
{
    let out: Vec<String> = Vec::new();
    assert(text::views(out@) =~= Seq::empty());
    out
}

fn write_failure(messages: &Vec<Message>) -> (r: Vec<String>)
    ensures
        text::views(r@) == seq![
            printable(failure_line(last_assistant(text::views(messages@), messages@.len() as int))),
        ],
{
    match find_last(messages) {
        Some(i) => match &messages[i] {
            Message::Assistant(a) => if a.stop_reason == StopReason::Error || a.stop_reason
                == StopReason::Aborted {
                match &a.error_message {
                    Some(e) => one_line(sanitize_text(e)),
                    None => one_line(sanitize_text("Request aborted")),
                }
            } else {
                one_line(sanitize_text("Request aborted"))
            },
            _ => no_lines(),
        },
        None => one_line(sanitize_text("Request aborted")),
    }
}

/// Whether the next message is sent: only where the run of the one before came to its end.
pub fn send_next(end: RunEnd) -> (r: bool)
    ensures
        r == (end == RunEnd::Completed),
        r == (messages_sent(seq![end, end]) == 2),
{
    proof {
        law_a_message_follows_completed_runs(seq![end, end], 1);
    }
    end == RunEnd::Completed
}

/// How many messages are sent, given how the run of each would end: every one up to the first
/// whose run does not come to its end, and that one.
pub open spec fn messages_sent(ends: Seq<RunEnd>) -> nat
    decreases ends.len(),
{
    if ends.len() == 0 {
        0
    } else if ends[0] == RunEnd::Completed {
        1 + messages_sent(ends.skip(1))
    } else {
        1
    }
}

/// A message is sent if and only if the runs of all the messages before it came to their ends.
pub proof fn law_a_message_follows_completed_runs(ends: Seq<RunEnd>, i: int)
    requires
        0 <= i < ends.len(),
    ensures
        messages_sent(ends) <= ends.len(),
        i < messages_sent(ends) <==> (forall|j: int|
            0 <= j < i ==> #[trigger] ends[j] == RunEnd::Completed),
    decreases ends.len(),
{
    let rest = ends.skip(1);
    if rest.len() > 0 {
        law_a_message_follows_completed_runs(
            rest,
            if i > 0 {
                i - 1
            } else {
                0
            },
        );
    } else {
        assert(messages_sent(rest) == 0);
    }
    if i > 0 && ends[0] == RunEnd::Completed {
        if i < messages_sent(ends) {
            assert forall|j: int| 0 <= j < i implies #[trigger] ends[j] == RunEnd::Completed by {
                if j > 0 {
                    assert(rest[j - 1] == ends[j]);
                }
            }
        }
        if forall|j: int| 0 <= j < i ==> #[trigger] ends[j] == RunEnd::Completed {
            assert forall|j: int| 0 <= j < i - 1 implies #[trigger] rest[j] == RunEnd::Completed by {
                assert(ends[j + 1] == rest[j]);
            }
        }
    }
}

/// How the host ends: with what it prints and its exit code.
pub fn conclude(
    end: RunEnd,
    messages: &Vec<Message>,
    as_text: bool,
    thoughts: bool,
    max_model_calls: u64,
    persist_failed: bool,
) -> (r: Ending)
    ensures
        r@ == ending_of(
            end,
            text::views(messages@),
            as_text,
            thoughts,
            max_model_calls,
            persist_failed,
        ),
{
    let code: i32 = if persist_failed || end != RunEnd::Completed {
        1
    } else {
        0
    };
    match end {
        RunEnd::Completed => match find_last(messages) {
            Some(i) => match &messages[i] {
                Message::Assistant(a) => {
                    let lines = if as_text {
                        write_answer(a, thoughts)
                    } else {
                        no_lines()
                    };
                    let errors = match &a.error_message {
                        Some(e) => one_line(sanitize_text(e)),
                        None => no_lines(),
                    };
                    Ending { lines, errors, code }
                },
                _ => Ending { lines: no_lines(), errors: no_lines(), code },
            },
            None => Ending { lines: no_lines(), errors: no_lines(), code },
        },
        RunEnd::Deadline => Ending {
            lines: no_lines(),
            errors: one_line("Deadline exceeded".to_string()),
            code,
        },
        RunEnd::ModelCallBudget => {
            let mut s = "ara: model call limit reached (".to_string();
            s.append(&decimal_text(max_model_calls));
            s.append(")");
            Ending { lines: no_lines(), errors: one_line(s), code }
        },
        RunEnd::Aborted => Ending { lines: no_lines(), errors: write_failure(messages), code },
        RunEnd::Error => Ending { lines: no_lines(), errors: write_failure(messages), code },
    }
}

// ------------------------------------------------------------------ laws

proof fn lemma_no_control(s: Seq<char>, i: int, k: int)
    requires
        0 <= k < printable_from(s, i).len(),
        0 <= i,
    ensures
        !is_control(printable_from(s, i)[k]),
    decreases s.len() - i,
{
    if i < s.len() {
        lemma_escape_ends(s, i + 1);
        if s[i] as int == 0x1b {
            lemma_no_control(s, escape_end(s, i + 1), k);
        } else if is_control(s[i]) {
            lemma_no_control(s, i + 1, k);
        } else if k > 0 {
            lemma_no_control(s, i + 1, k - 1);
        }
    }
}

/// Printed text holds no control characters but tabs and line feeds.
pub proof fn law_printed_text_is_printable(s: Seq<char>, k: int)
    requires
        0 <= k < printable(s).len(),
    ensures
        !is_control(printable(s)[k]),
{
    lemma_no_control(s, 0, k);
}

proof fn lemma_kept(s: Seq<char>, i: int)
    requires
        0 <= i <= s.len(),
        forall|k: int| 0 <= k < s.len() ==> !is_control(#[trigger] s[k]),
    ensures
        printable_from(s, i) == s.subrange(i, s.len() as int),
    decreases s.len() - i,
{
    if i < s.len() {
        lemma_kept(s, i + 1);
        assert(!is_control(s[i]));
        assert(seq![s[i]] + s.subrange(i + 1, s.len() as int) =~= s.subrange(i, s.len() as int));
    } else {
        assert(s.subrange(i, s.len() as int) =~= Seq::empty());
    }
}

/// Text without control characters is printed as it is.
pub proof fn law_plain_text_is_printed(s: Seq<char>)
    requires
        forall|k: int| 0 <= k < s.len() ==> !is_control(#[trigger] s[k]),
    ensures
        printable(s) == s,
{
    lemma_kept(s, 0);
    assert(s.subrange(0, s.len() as int) =~= s);
}

/// A key goes only to its own route: unless a variable is named for the key, the key for
/// `openrouter.ai` does not matter on any other route, nor the other keys on that one.
pub proof fn law_keys_go_to_their_own_route(
    args: RouteArgsView,
    url: Seq<char>,
    one: Seq<EnvVarView>,
    two: Seq<EnvVarView>,
)
    requires
        args.api_key_env is None,
        openrouter(url) ==> filled(one, "OPENROUTER_API_KEY"@) == filled(
            two,
            "OPENROUTER_API_KEY"@,
        ),
        !openrouter(url) ==> filled(one, "ARA_API_KEY"@) == filled(two, "ARA_API_KEY"@) && filled(
            one,
            "ARA_TEST_API_KEY"@,
        ) == filled(two, "ARA_TEST_API_KEY"@),
    ensures
        api_key(args, one, url) == api_key(args, two, url),
{
    reveal_with_fuel(first_filled, 3);
}

/// A run that did not complete, or was not recorded, never looks like a success.
pub proof fn law_failures_have_an_exit_code(
    end: RunEnd,
    messages: Seq<MessageView>,
    as_text: bool,
    thoughts: bool,
    max_model_calls: u64,
    persist_failed: bool,
)
    ensures
        ending_of(end, messages, as_text, thoughts, max_model_calls, persist_failed).code == 0
            <==> end == RunEnd::Completed && !persist_failed,
        end != RunEnd::Completed ==> ending_of(
            end,
            messages,
            as_text,
            thoughts,
            max_model_calls,
            persist_failed,
        ).lines.len() == 0,
{
}

} // verus!
