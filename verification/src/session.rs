//! Codex session-log model: token usage of turns and their summaries.

use vstd::prelude::*;
use vstd::multiset::Multiset;
use crate::account::opt_view;
use crate::paths::Paths;
use crate::json::{Json, get_opt, json_get, opt_deref, opt_get, opt_i64, opt_str, parse_json, spec_parse_json, str_opt};
use crate::text::{chars_eq_str, chars_of, split_char, split_chars, string_from_chars, trim, trim_chars, views};
use crate::time::{Timestamp, parse_rfc3339, spec_parse_rfc3339, ts_lt};

verus! {

/// Token counts of one turn.
#[derive(Debug, Default, Clone, Copy, PartialEq, Eq, Structural)]
pub struct TokenUsage {
    /// Uncached input tokens.
    pub input_tokens: i64,
    /// Input tokens served from the prompt cache.
    pub cached_input_tokens: i64,
    /// Output tokens.
    pub output_tokens: i64,
}

/// Total input tokens billed to the API, cached plus uncached, clamped to
/// the `i64` range.
pub open spec fn spec_input_total(u: TokenUsage) -> i64 {
    let s = u.input_tokens + u.cached_input_tokens;
    if s > i64::MAX {
        i64::MAX
    } else if s < i64::MIN {
        i64::MIN
    } else {
        s as i64
    }
}

impl TokenUsage {
    /// Total input tokens billed to the API, i.e. cached + uncached. Used
    /// to decide whether a long-context tier applies.
    pub fn input_total(&self) -> (r: i64)
        ensures
            r == spec_input_total(*self),
    {
        let s = self.input_tokens as i128 + self.cached_input_tokens as i128;
        if s > i64::MAX as i128 {
            i64::MAX
        } else if s < i64::MIN as i128 {
            i64::MIN
        } else {
            s as i64
        }
    }
}

} // verus!

verus! {

/// One `task_complete` turn read from a session log.
#[derive(Debug, Clone)]
pub struct SessionTurn {
    pub session_id: String,
    pub timestamp: Timestamp,
    pub model: Option<String>,
    pub input_tokens: i64,
    pub cached_input_tokens: i64,
    pub output_tokens: i64,
    pub total_tokens: i64,
    pub cwd: Option<String>,
}

/// A turn as plain values.
pub ghost struct TurnView {
    pub session_id: Seq<char>,
    pub timestamp: Timestamp,
    pub model: Option<Seq<char>>,
    pub input_tokens: i64,
    pub cached_input_tokens: i64,
    pub output_tokens: i64,
    pub total_tokens: i64,
    pub cwd: Option<Seq<char>>,
}

pub open spec fn turn_view(t: SessionTurn) -> TurnView {
    TurnView {
        session_id: t.session_id@,
        timestamp: t.timestamp,
        model: opt_view(t.model),
        input_tokens: t.input_tokens,
        cached_input_tokens: t.cached_input_tokens,
        output_tokens: t.output_tokens,
        total_tokens: t.total_tokens,
        cwd: opt_view(t.cwd),
    }
}

pub open spec fn turn_views(s: Seq<SessionTurn>) -> Seq<TurnView> {
    s.map_values(|t: SessionTurn| turn_view(t))
}

/// The model and working directory last announced by a `turn_context`.
pub ghost struct LogContext {
    pub model: Option<Seq<char>>,
    pub cwd: Option<Seq<char>>,
}

/// `(input, cached, output)` token counts of a usage object; a missing or
/// non-integer count is 0.
pub open spec fn spec_extract_usage(u: Json) -> (i64, i64, i64) {
    (
        match opt_i64(json_get(u, "input_tokens"@)) { Some(x) => x, None => 0 },
        match opt_i64(json_get(u, "cached_input_tokens"@)) { Some(x) => x, None => 0 },
        match opt_i64(json_get(u, "output_tokens"@)) { Some(x) => x, None => 0 },
    )
}

/// The usage object of a `task_complete` event:
/// `payload.info.last_token_usage.total_token_usage`, else
/// `payload.info.last_token_usage`.
pub open spec fn spec_event_usage(v: Json) -> Option<Json> {
    let info = opt_get(opt_get(json_get(v, "payload"@), "info"@), "last_token_usage"@);
    match opt_get(info, "total_token_usage"@) {
        Some(u) => Some(u),
        None => info,
    }
}

/// One log line read against the current context: `None` when the line is
/// blank or not JSON; otherwise the parsed value.
pub open spec fn spec_line_value(line: Seq<char>) -> Option<Json> {
    let t = trim(line);
    if t.len() == 0 { None } else { spec_parse_json(t) }
}

/// The effect of one log line: a `turn_context` with a payload sets the
/// context's model and cwd (to `None` where absent); a `task_complete`
/// yields a turn, timestamped by its RFC 3339 `timestamp` or else `now`,
/// skipped when it is before `since`, and kept when it has tokens or a
/// model (its own, else the context's).
pub open spec fn spec_step(ctx: LogContext, line: Seq<char>, sid: Seq<char>, now: Timestamp, since: Option<Timestamp>) -> (LogContext, Seq<TurnView>) {
    match spec_line_value(line) {
        None => (ctx, Seq::empty()),
        Some(v) => {
            let ty = match opt_str(json_get(v, "type"@)) { Some(t) => t, None => Seq::empty() };
            if ty == "turn_context"@ {
                match json_get(v, "payload"@) {
                    Some(p) => (LogContext { model: opt_str(json_get(p, "model"@)), cwd: opt_str(json_get(p, "cwd"@)) }, Seq::empty()),
                    None => (ctx, Seq::empty()),
                }
            } else if ty == "task_complete"@ {
                let ts = match opt_str(json_get(v, "timestamp"@)) {
                    Some(s) => match spec_parse_rfc3339(s) { Some(t) => t, None => now },
                    None => now,
                };
                if since matches Some(s) && ts_lt(ts, s) {
                    (ctx, Seq::empty())
                } else {
                    let (input, cached, output) = match spec_event_usage(v) {
                        Some(u) => spec_extract_usage(u),
                        None => (0i64, 0i64, 0i64),
                    };
                    let model = match opt_str(opt_get(json_get(v, "payload"@), "model"@)) {
                        Some(m) => Some(m),
                        None => ctx.model,
                    };
                    let cwd = match opt_str(opt_get(json_get(v, "payload"@), "cwd"@)) {
                        Some(c) => Some(c),
                        None => ctx.cwd,
                    };
                    let total = input.wrapping_add(cached).wrapping_add(output);
                    if total > 0 || model is Some {
                        (ctx, seq![TurnView {
                            session_id: sid,
                            timestamp: ts,
                            model,
                            input_tokens: input,
                            cached_input_tokens: cached,
                            output_tokens: output,
                            total_tokens: total,
                            cwd,
                        }])
                    } else {
                        (ctx, Seq::empty())
                    }
                }
            } else {
                (ctx, Seq::empty())
            }
        },
    }
}

/// The context and turns after reading some lines in order.
pub open spec fn spec_fold_lines(lines: Seq<Seq<char>>, sid: Seq<char>, now: Timestamp, since: Option<Timestamp>) -> (LogContext, Seq<TurnView>)
    decreases lines.len(),
{
    if lines.len() == 0 {
        (LogContext { model: None, cwd: None }, Seq::empty())
    } else {
        let (ctx, turns) = spec_fold_lines(lines.drop_last(), sid, now, since);
        let (ctx2, t) = spec_step(ctx, lines.last(), sid, now, since);
        (ctx2, turns + t)
    }
}

/// The turns of a session log: its lines read in order.
pub open spec fn spec_parse_session(raw: Seq<char>, sid: Seq<char>, now: Timestamp, since: Option<Timestamp>) -> Seq<TurnView> {
    spec_fold_lines(split_char(raw, '\n'), sid, now, since).1
}

fn extract_usage(u: &Json) -> (r: (i64, i64, i64))
    ensures
        r == spec_extract_usage(*u),
{
    let input = match u.get("input_tokens") { Some(x) => x.as_i64(), None => None };
    let cached = match u.get("cached_input_tokens") { Some(x) => x.as_i64(), None => None };
    let output = match u.get("output_tokens") { Some(x) => x.as_i64(), None => None };
    (
        match input { Some(x) => x, None => 0 },
        match cached { Some(x) => x, None => 0 },
        match output { Some(x) => x, None => 0 },
    )
}

fn event_usage(v: &Json) -> (r: Option<&Json>)
    ensures
        opt_deref(r) == spec_event_usage(*v),
{
    let info = get_opt(get_opt(v.get("payload"), "info"), "last_token_usage");
    match get_opt(info, "total_token_usage") {
        Some(u) => Some(u),
        None => info,
    }
}

fn clone_opt_string(o: &Option<String>) -> (r: Option<String>)
    ensures
        opt_view(r) == opt_view(*o),
{
    match o {
        Some(s) => Some(s.clone()),
        None => None,
    }
}

/// Reads one log line; see `spec_step`.
fn step_line(line: &Vec<char>, model: &mut Option<String>, cwd: &mut Option<String>, sid: &str, now: Timestamp, since: Option<Timestamp>) -> (r: Option<SessionTurn>)
    ensures
        ({
            let (ctx, t) = spec_step(LogContext { model: opt_view(*old(model)), cwd: opt_view(*old(cwd)) }, line@, sid@, now, since);
            &&& ctx == LogContext { model: opt_view(*final(model)), cwd: opt_view(*final(cwd)) }
            &&& t == match r { Some(x) => seq![turn_view(x)], None => Seq::<TurnView>::empty() }
        }),
{
    proof {
        reveal_strlit("");
        reveal_strlit("task_complete");
        reveal_strlit("turn_context");
    }
    let t = trim_chars(line);
    if t.len() == 0 {
        return None;
    }
    let ts_text = string_from_chars(&t);
    let v = match parse_json(ts_text.as_str()) {
        Some(v) => v,
        None => return None,
    };
    let ty_v = match v.get("type") { Some(x) => x.as_str(), None => None };
    let ty: &str = match ty_v { Some(s) => s, None => "" };
    let tyc = chars_of(ty);
    assert(spec_line_value(line@) == Some(v));
    assert(tyc@ == match opt_str(json_get(v, "type"@)) { Some(t) => t, None => Seq::<char>::empty() });
    if chars_eq_str(&tyc, "turn_context") {
        match v.get("payload") {
            Some(p) => {
                *model = str_opt(p.get("model"));
                *cwd = str_opt(p.get("cwd"));
            },
            None => {},
        }
        return None;
    }
    if !chars_eq_str(&tyc, "task_complete") {
        return None;
    }
    let ts = match str_opt(v.get("timestamp")) {
        Some(s) => match parse_rfc3339(s.as_str()) { Some(t) => t, None => now },
        None => now,
    };
    if let Some(s) = since {
        if ts.before(&s) {
            return None;
        }
    }
    let (input, cached, output) = match event_usage(&v) {
        Some(u) => extract_usage(u),
        None => (0i64, 0i64, 0i64),
    };
    let payload = v.get("payload");
    let turn_model = match str_opt(get_opt(payload, "model")) {
        Some(m) => Some(m),
        None => clone_opt_string(model),
    };
    let turn_cwd = match str_opt(get_opt(payload, "cwd")) {
        Some(c) => Some(c),
        None => clone_opt_string(cwd),
    };
    let total = input.wrapping_add(cached).wrapping_add(output);
    if total > 0 || turn_model.is_some() {
        Some(SessionTurn {
            session_id: sid.to_owned(),
            timestamp: ts,
            model: turn_model,
            input_tokens: input,
            cached_input_tokens: cached,
            output_tokens: output,
            total_tokens: total,
            cwd: turn_cwd,
        })
    } else {
        None
    }
}

/// Reads the `task_complete` turns of one session log, with `now` standing
/// for turns without a readable timestamp and turns before `since` left out.
pub fn parse_session_text(raw: &str, session_id: &str, now: Timestamp, since: Option<Timestamp>) -> (r: Vec<SessionTurn>)
    ensures
        turn_views(r@) == spec_parse_session(raw@, session_id@, now, since),
{
    let chars = chars_of(raw);
    let lines = split_chars(&chars, '\n');
    let mut model: Option<String> = None;
    let mut cwd: Option<String> = None;
    let mut out: Vec<SessionTurn> = Vec::new();
    let mut i: usize = 0;
    while i < lines.len()
        invariant
            i <= lines.len(),
            views(lines@) == split_char(raw@, '\n'),
            spec_fold_lines(views(lines@).take(i as int), session_id@, now, since) == (
                LogContext { model: opt_view(model), cwd: opt_view(cwd) },
                turn_views(out@),
            ),
        decreases lines.len() - i,
    {
        assert(views(lines@).take(i + 1).drop_last() =~= views(lines@).take(i as int));
        assert(views(lines@).take(i + 1).last() == lines@[i as int]@);
        let ghost before = out@;
        let t = step_line(&lines[i], &mut model, &mut cwd, session_id, now, since);
        match t {
            Some(x) => {
                out.push(x);
            },
            None => {},
        }
        assert(turn_views(out@) =~= turn_views(before) + match t {
            Some(x) => seq![turn_view(x)],
            None => Seq::<TurnView>::empty(),
        });
        i = i + 1;
    }
    assert(views(lines@).take(lines@.len() as int) =~= views(lines@));
    out
}

/// A path that every platform splits alike: no `\`, no drive (`C:...`)
/// and no leading `//` (a network share on Windows), so `/` is its only
/// separator.
pub open spec fn is_portable_path(p: Seq<char>) -> bool {
    &&& forall|i: int| 0 <= i < p.len() ==> p[i] != '\\'
    &&& !(p.len() >= 2 && p[1] == ':')
    &&& !(p.len() >= 2 && p[0] == '/' && p[1] == '/')
}

/// The named components of a `/`-separated path: its pieces, without the
/// empty ones (repeated, leading or trailing separators) and `.`.
pub open spec fn path_components(p: Seq<char>) -> Seq<Seq<char>> {
    split_char(p, '/').filter(|c: Seq<char>| c.len() > 0 && c != seq!['.'])
}

/// The file name of a portable path (`Path::file_name`): its last named
/// component, none when it has none or when that is `..`.
pub open spec fn spec_file_name(p: Seq<char>) -> Option<Seq<char>> {
    let cs = path_components(p);
    if cs.len() == 0 || cs.last() == seq!['.', '.'] {
        None
    } else {
        Some(cs.last())
    }
}

/// Index of the last `c` in `s`, or -1.
pub open spec fn last_index_of(s: Seq<char>, c: char) -> int
    decreases s.len(),
{
    if s.len() == 0 {
        -1
    } else if s.last() == c {
        s.len() - 1
    } else {
        last_index_of(s.drop_last(), c)
    }
}

/// A file name without its last extension: the part before the last `.`,
/// or the whole name when it has no `.` but a leading one.
pub open spec fn spec_stem_of_name(name: Seq<char>) -> Seq<char> {
    let k = last_index_of(name, '.');
    if k <= 0 {
        name
    } else {
        name.take(k)
    }
}

/// The file stem of a portable path (`Path::file_stem`).
pub open spec fn spec_file_stem(p: Seq<char>) -> Option<Seq<char>> {
    match spec_file_name(p) {
        Some(n) => Some(spec_stem_of_name(n)),
        None => None,
    }
}

/// Calls `Path::new(path).file_stem()` and makes the stem a `String`. On a
/// portable path, `file_stem` is the last named component without its
/// last extension (a leading dot kept), and `None` when there is no file
/// name; the stem is a piece of valid UTF-8 cut at ASCII characters, so the
/// conversion keeps it. On other paths what counts as a separator or a
/// prefix depends on the platform, and only this is stated: a stem is a
/// piece of the path.
#[verifier::external_body]
fn file_stem(path: &str) -> (r: Option<String>)
    ensures
        is_portable_path(path@) ==> opt_view(r) == spec_file_stem(path@),
        r matches Some(s) ==> exists|i: int, j: int| 0 <= i <= j <= path@.len() && s@ == path@.subrange(i, j),
{
    std::path::Path::new(path).file_stem().and_then(|s| s.to_str()).map(String::from)
}

/// The session id for a log file's stem: the stem (the UUID in
/// `sessions/YYYY/MM/DD/<uuid>.jsonl`), or `unknown` without one.
pub open spec fn spec_session_id(stem: Option<Seq<char>>) -> Seq<char> {
    match stem {
        Some(s) => s,
        None => "unknown"@,
    }
}

/// The session id for a log file's stem; see `spec_session_id`.
pub fn session_id_of_stem(stem: Option<String>) -> (r: String)
    ensures
        r@ == spec_session_id(opt_view(stem)),
{
    proof {
        reveal_strlit("unknown");
    }
    match stem {
        Some(s) => s,
        None => "unknown".to_owned(),
    }
}

/// The session id of a log file: its file stem, or `unknown` when it has
/// no file name.
pub fn session_id_from_path(path: &str) -> (r: String)
    ensures
        is_portable_path(path@) ==> r@ == spec_session_id(spec_file_stem(path@)),
        r@ == "unknown"@ || exists|i: int, j: int| 0 <= i <= j <= path@.len() && r@ == path@.subrange(i, j),
{
    let stem = file_stem(path);
    session_id_of_stem(stem)
}

/// The token counts of a turn.
pub open spec fn spec_usage_of(t: SessionTurn) -> TokenUsage {
    TokenUsage {
        input_tokens: t.input_tokens,
        cached_input_tokens: t.cached_input_tokens,
        output_tokens: t.output_tokens,
    }
}

impl TokenUsage {
    /// The token counts of a turn.
    pub fn of_turn(t: &SessionTurn) -> (r: TokenUsage)
        ensures
            r == spec_usage_of(*t),
    {
        TokenUsage {
            input_tokens: t.input_tokens,
            cached_input_tokens: t.cached_input_tokens,
            output_tokens: t.output_tokens,
        }
    }
}

} // verus!

verus! {

/// Token totals of one model.
#[derive(Debug, Clone)]
pub struct ModelUsage {
    pub model: String,
    pub input_tokens: i64,
    pub cached_input_tokens: i64,
    pub output_tokens: i64,
    pub total_tokens: i64,
}

pub ghost struct ModelUsageView {
    pub model: Seq<char>,
    pub input_tokens: i64,
    pub cached_input_tokens: i64,
    pub output_tokens: i64,
    pub total_tokens: i64,
}

pub open spec fn usage_view(m: ModelUsage) -> ModelUsageView {
    ModelUsageView {
        model: m.model@,
        input_tokens: m.input_tokens,
        cached_input_tokens: m.cached_input_tokens,
        output_tokens: m.output_tokens,
        total_tokens: m.total_tokens,
    }
}

pub open spec fn usage_views(s: Seq<ModelUsage>) -> Seq<ModelUsageView> {
    s.map_values(|m: ModelUsage| usage_view(m))
}

/// Index of the first row of model `m`, or -1.
pub open spec fn find_model(rows: Seq<ModelUsageView>, m: Seq<char>) -> int
    decreases rows.len(),
{
    if rows.len() == 0 {
        -1
    } else if rows[0].model == m {
        0
    } else {
        let r = find_model(rows.drop_first(), m);
        if r < 0 { -1 } else { r + 1 }
    }
}

proof fn lemma_find_model(rows: Seq<ModelUsageView>, m: Seq<char>, j: int)
    requires
        0 <= j <= rows.len(),
        forall|k: int| 0 <= k < j ==> rows[k].model != m,
        j < rows.len() ==> rows[j].model == m,
    ensures
        find_model(rows, m) == (if j < rows.len() { j } else { -1 }),
    decreases j,
{
    if j > 0 {
        lemma_find_model(rows.drop_first(), m, j - 1);
    }
}

/// A turn counted into the per-model rows: turns without a model are not
/// counted; the first row of the turn's model grows by its tokens (with
/// `i64` wrapping), or a new row is appended.
pub open spec fn spec_upsert_model(rows: Seq<ModelUsageView>, t: TurnView) -> Seq<ModelUsageView> {
    match t.model {
        None => rows,
        Some(m) => {
            let i = find_model(rows, m);
            if i >= 0 {
                let r = rows[i];
                rows.update(i, ModelUsageView {
                    model: r.model,
                    input_tokens: r.input_tokens.wrapping_add(t.input_tokens),
                    cached_input_tokens: r.cached_input_tokens.wrapping_add(t.cached_input_tokens),
                    output_tokens: r.output_tokens.wrapping_add(t.output_tokens),
                    total_tokens: r.total_tokens.wrapping_add(t.total_tokens),
                })
            } else {
                rows.push(ModelUsageView {
                    model: m,
                    input_tokens: t.input_tokens,
                    cached_input_tokens: t.cached_input_tokens,
                    output_tokens: t.output_tokens,
                    total_tokens: t.total_tokens,
                })
            }
        },
    }
}

/// Inserts a turn into turns sorted newest first, after every turn that is
/// not older (so equal timestamps keep their order).
pub open spec fn insert_newest_first(s: Seq<TurnView>, x: TurnView) -> Seq<TurnView>
    decreases s.len(),
{
    if s.len() == 0 {
        seq![x]
    } else if ts_lt(s[0].timestamp, x.timestamp) {
        seq![x] + s
    } else {
        seq![s[0]] + insert_newest_first(s.drop_first(), x)
    }
}

/// The stable sort of turns, newest first.
pub open spec fn sort_newest_first(s: Seq<TurnView>) -> Seq<TurnView>
    decreases s.len(),
{
    if s.len() == 0 {
        s
    } else {
        insert_newest_first(sort_newest_first(s.drop_last()), s.last())
    }
}

/// A turn added to the recent list: appended, and when the list then
/// exceeds `limit`, sorted newest first and cut to `limit`.
pub open spec fn spec_push_recent(recent: Seq<TurnView>, t: TurnView, limit: nat) -> Seq<TurnView> {
    let r = recent.push(t);
    if r.len() > limit {
        sort_newest_first(r).take(limit as int)
    } else {
        r
    }
}

/// Inserts a row into rows sorted by total tokens, largest first, after
/// every row with no fewer tokens.
pub open spec fn insert_by_total(s: Seq<ModelUsageView>, x: ModelUsageView) -> Seq<ModelUsageView>
    decreases s.len(),
{
    if s.len() == 0 {
        seq![x]
    } else if s[0].total_tokens < x.total_tokens {
        seq![x] + s
    } else {
        seq![s[0]] + insert_by_total(s.drop_first(), x)
    }
}

/// The stable sort of rows by total tokens, largest first.
pub open spec fn sort_by_total(s: Seq<ModelUsageView>) -> Seq<ModelUsageView>
    decreases s.len(),
{
    if s.len() == 0 {
        s
    } else {
        insert_by_total(sort_by_total(s.drop_last()), s.last())
    }
}

proof fn lemma_insert_newest_first(s: Seq<TurnView>, x: TurnView, p: int)
    requires
        0 <= p <= s.len(),
        forall|k: int| 0 <= k < p ==> !ts_lt(#[trigger] s[k].timestamp, x.timestamp),
        p < s.len() ==> ts_lt(s[p].timestamp, x.timestamp),
    ensures
        insert_newest_first(s, x) == s.take(p) + seq![x] + s.skip(p),
    decreases p,
{
    if p == 0 {
        if s.len() == 0 {
            assert(s.take(0) + seq![x] + s.skip(0) =~= seq![x]);
        } else {
            assert(s.take(0) + seq![x] + s.skip(0) =~= seq![x] + s);
        }
    } else {
        lemma_insert_newest_first(s.drop_first(), x, p - 1);
        assert(s.take(p) + seq![x] + s.skip(p) =~= seq![s[0]] + (s.drop_first().take(p - 1)
            + seq![x] + s.drop_first().skip(p - 1)));
    }
}

proof fn lemma_insert_by_total(s: Seq<ModelUsageView>, x: ModelUsageView, p: int)
    requires
        0 <= p <= s.len(),
        forall|k: int| 0 <= k < p ==> !(#[trigger] s[k].total_tokens < x.total_tokens),
        p < s.len() ==> s[p].total_tokens < x.total_tokens,
    ensures
        insert_by_total(s, x) == s.take(p) + seq![x] + s.skip(p),
    decreases p,
{
    if p == 0 {
        if s.len() == 0 {
            assert(s.take(0) + seq![x] + s.skip(0) =~= seq![x]);
        } else {
            assert(s.take(0) + seq![x] + s.skip(0) =~= seq![x] + s);
        }
    } else {
        lemma_insert_by_total(s.drop_first(), x, p - 1);
        assert(s.take(p) + seq![x] + s.skip(p) =~= seq![s[0]] + (s.drop_first().take(p - 1)
            + seq![x] + s.drop_first().skip(p - 1)));
    }
}

fn insert_turn(v: &mut Vec<SessionTurn>, x: SessionTurn)
    ensures
        final(v)@.len() == old(v)@.len() + 1,
        turn_views(final(v)@) == insert_newest_first(turn_views(old(v)@), turn_view(x)),
{
    let mut p: usize = 0;
    while p < v.len() && !v[p].timestamp.before(&x.timestamp)
        invariant
            p <= v.len(),
            forall|k: int| 0 <= k < p ==> !ts_lt(#[trigger] v@[k].timestamp, x.timestamp),
        decreases v.len() - p,
    {
        p = p + 1;
    }
    let ghost before = v@;
    proof {
        lemma_insert_newest_first(turn_views(before), turn_view(x), p as int);
    }
    v.insert(p, x);
    assert(turn_views(v@) =~= turn_views(before).take(p as int) + seq![turn_view(x)] + turn_views(before).skip(p as int));
}

fn sort_turns_newest_first(v: Vec<SessionTurn>) -> (r: Vec<SessionTurn>)
    ensures
        turn_views(r@) == sort_newest_first(turn_views(v@)),
        r@.len() == v@.len(),
{
    let mut out: Vec<SessionTurn> = Vec::new();
    let mut src = v;
    let ghost all = src@;
    let n = src.len();
    let mut i: usize = 0;
    assert(all.skip(0) =~= all);
    while src.len() > 0
        invariant
            i <= n,
            n == all.len(),
            src@ == all.skip(i as int),
            src@.len() + i == n,
            turn_views(out@) == sort_newest_first(turn_views(all).take(i as int)),
            out@.len() == i,
        decreases src.len(),
    {
        let x = src.remove(0);
        assert(x == all[i as int]);
        assert(turn_views(all).take(i + 1).drop_last() =~= turn_views(all).take(i as int));
        insert_turn(&mut out, x);
        assert(src@ =~= all.skip(i + 1));
        i = i + 1;
    }
    assert(turn_views(all).take(n as int) =~= turn_views(all));
    out
}

fn insert_usage(v: &mut Vec<ModelUsage>, x: ModelUsage)
    ensures
        usage_views(final(v)@) == insert_by_total(usage_views(old(v)@), usage_view(x)),
{
    let mut p: usize = 0;
    while p < v.len() && !(v[p].total_tokens < x.total_tokens)
        invariant
            p <= v.len(),
            forall|k: int| 0 <= k < p ==> !(#[trigger] v@[k].total_tokens < x.total_tokens),
        decreases v.len() - p,
    {
        p = p + 1;
    }
    let ghost before = v@;
    proof {
        lemma_insert_by_total(usage_views(before), usage_view(x), p as int);
    }
    v.insert(p, x);
    assert(usage_views(v@) =~= usage_views(before).take(p as int) + seq![usage_view(x)] + usage_views(before).skip(p as int));
}

/// Sorts rows by total tokens, largest first, keeping ties in order.
pub fn sort_usage_by_total(v: Vec<ModelUsage>) -> (r: Vec<ModelUsage>)
    ensures
        usage_views(r@) == sort_by_total(usage_views(v@)),
{
    let mut out: Vec<ModelUsage> = Vec::new();
    let mut src = v;
    let ghost all = src@;
    let n = src.len();
    let mut i: usize = 0;
    assert(all.skip(0) =~= all);
    while src.len() > 0
        invariant
            i <= n,
            n == all.len(),
            src@ == all.skip(i as int),
            src@.len() + i == n,
            usage_views(out@) == sort_by_total(usage_views(all).take(i as int)),
        decreases src.len(),
    {
        let x = src.remove(0);
        assert(x == all[i as int]);
        assert(usage_views(all).take(i + 1).drop_last() =~= usage_views(all).take(i as int));
        insert_usage(&mut out, x);
        assert(src@ =~= all.skip(i + 1));
        i = i + 1;
    }
    assert(usage_views(all).take(n as int) =~= usage_views(all));
    out
}

/// Counts a turn into the per-model rows; see `spec_upsert_model`.
pub fn upsert_model(per_model: &mut Vec<ModelUsage>, turn: &SessionTurn)
    ensures
        usage_views(final(per_model)@) == spec_upsert_model(usage_views(old(per_model)@), turn_view(*turn)),
{
    let m = match &turn.model {
        Some(m) => m,
        None => return,
    };
    let mc = chars_of(m.as_str());
    let mut i: usize = 0;
    while i < per_model.len()
        invariant
            i <= per_model.len(),
            mc@ == m@,
            per_model@ == old(per_model)@,
            turn.model == Some(*m),
            forall|k: int| 0 <= k < i ==> usage_views(per_model@)[k].model != m@,
        decreases per_model.len() - i,
    {
        let name = chars_of(per_model[i].model.as_str());
        if crate::text::chars_eq(&name, &mc) {
            proof { lemma_find_model(usage_views(per_model@), m@, i as int); }
            let ghost before = per_model@;
            let mut row = per_model.remove(i);
            row.input_tokens = row.input_tokens.wrapping_add(turn.input_tokens);
            row.cached_input_tokens = row.cached_input_tokens.wrapping_add(turn.cached_input_tokens);
            row.output_tokens = row.output_tokens.wrapping_add(turn.output_tokens);
            row.total_tokens = row.total_tokens.wrapping_add(turn.total_tokens);
            per_model.insert(i, row);
            assert(per_model@ =~= before.update(i as int, row));
            let ghost r0 = usage_views(before)[i as int];
            assert(usage_view(row) == ModelUsageView {
                model: r0.model,
                input_tokens: r0.input_tokens.wrapping_add(turn.input_tokens),
                cached_input_tokens: r0.cached_input_tokens.wrapping_add(turn.cached_input_tokens),
                output_tokens: r0.output_tokens.wrapping_add(turn.output_tokens),
                total_tokens: r0.total_tokens.wrapping_add(turn.total_tokens),
            });
            assert(usage_views(per_model@) =~= usage_views(before).update(i as int, usage_view(row)));
            return;
        }
        i = i + 1;
    }
    proof { lemma_find_model(usage_views(per_model@), m@, i as int); }
    let ghost before = per_model@;
    per_model.push(ModelUsage {
        model: m.clone(),
        input_tokens: turn.input_tokens,
        cached_input_tokens: turn.cached_input_tokens,
        output_tokens: turn.output_tokens,
        total_tokens: turn.total_tokens,
    });
    assert(usage_views(per_model@) =~= spec_upsert_model(usage_views(before), turn_view(*turn)));
}

/// Adds a turn to the recent list; see `spec_push_recent`.
pub fn push_recent(recent: &mut Vec<SessionTurn>, turn: SessionTurn, limit: usize)
    ensures
        turn_views(final(recent)@) == spec_push_recent(turn_views(old(recent)@), turn_view(turn), limit as nat),
{
    let ghost before = recent@;
    let ghost tv = turn_view(turn);
    recent.push(turn);
    assert(turn_views(recent@) =~= turn_views(before).push(tv));
    if recent.len() > limit {
        let mut all: Vec<SessionTurn> = Vec::new();
        std::mem::swap(&mut all, recent);
        let mut sorted = sort_turns_newest_first(all);
        let ghost sb = sorted@;
        sorted.truncate(limit);
        assert(sorted@ =~= sb.take(limit as int));
        assert(turn_views(sorted@) =~= turn_views(sb).take(limit as int));
        *recent = sorted;
    }
}

} // verus!

verus! {

/// What a scan of the session logs found.
#[derive(Debug, Clone)]
pub struct UsageSummary {
    pub sessions_scanned: usize,
    pub turns_scanned: usize,
    pub total_input_tokens: i64,
    pub total_cached_input_tokens: i64,
    pub total_output_tokens: i64,
    pub total_tokens: i64,
    pub per_model: Vec<ModelUsage>,
    pub recent: Vec<SessionTurn>,
}

impl Default for UsageSummary {
    fn default() -> (r: UsageSummary)
        ensures
            summary_view(r) == empty_summary(),
    {
        let r = UsageSummary {
            sessions_scanned: 0,
            turns_scanned: 0,
            total_input_tokens: 0,
            total_cached_input_tokens: 0,
            total_output_tokens: 0,
            total_tokens: 0,
            per_model: Vec::new(),
            recent: Vec::new(),
        };
        assert(usage_views(r.per_model@) =~= Seq::empty());
        assert(turn_views(r.recent@) =~= Seq::empty());
        r
    }
}

pub ghost struct SummaryView {
    pub sessions: nat,
    pub turns: nat,
    pub input: i64,
    pub cached: i64,
    pub output: i64,
    pub total: i64,
    pub per_model: Seq<ModelUsageView>,
    pub recent: Seq<TurnView>,
}

pub open spec fn summary_view(s: UsageSummary) -> SummaryView {
    SummaryView {
        sessions: s.sessions_scanned as nat,
        turns: s.turns_scanned as nat,
        input: s.total_input_tokens,
        cached: s.total_cached_input_tokens,
        output: s.total_output_tokens,
        total: s.total_tokens,
        per_model: usage_views(s.per_model@),
        recent: turn_views(s.recent@),
    }
}

pub open spec fn empty_summary() -> SummaryView {
    SummaryView {
        sessions: 0,
        turns: 0,
        input: 0,
        cached: 0,
        output: 0,
        total: 0,
        per_model: Seq::empty(),
        recent: Seq::empty(),
    }
}

/// A turn counted into a summary: the totals grow (wrapping in `i64`), the
/// turn's model row grows, and the turn joins the recent list.
pub open spec fn spec_add_turn(s: SummaryView, t: TurnView, limit: nat) -> SummaryView {
    SummaryView {
        input: s.input.wrapping_add(t.input_tokens),
        cached: s.cached.wrapping_add(t.cached_input_tokens),
        output: s.output.wrapping_add(t.output_tokens),
        total: s.total.wrapping_add(t.total_tokens),
        per_model: spec_upsert_model(s.per_model, t),
        recent: spec_push_recent(s.recent, t, limit),
        ..s
    }
}

/// Turns counted into a summary in order.
pub open spec fn spec_add_turns(s: SummaryView, ts: Seq<TurnView>, limit: nat) -> SummaryView
    decreases ts.len(),
{
    if ts.len() == 0 {
        s
    } else {
        spec_add_turn(spec_add_turns(s, ts.drop_last(), limit), ts.last(), limit)
    }
}

/// One session file counted into a summary: every file counts as scanned;
/// the turns of a readable one are counted and added.
pub open spec fn spec_add_session(s: SummaryView, file: Option<Seq<TurnView>>, limit: nat) -> SummaryView {
    let s1 = SummaryView { sessions: s.sessions + 1, ..s };
    match file {
        None => s1,
        Some(ts) => spec_add_turns(SummaryView { turns: s1.turns + ts.len(), ..s1 }, ts, limit),
    }
}

/// Session files counted in order into an empty summary.
pub open spec fn spec_add_sessions(files: Seq<Option<Seq<TurnView>>>, limit: nat) -> SummaryView
    decreases files.len(),
{
    if files.len() == 0 {
        empty_summary()
    } else {
        spec_add_session(spec_add_sessions(files.drop_last(), limit), files.last(), limit)
    }
}

/// The summary of a scan: the files counted in order, then the per-model
/// rows ordered by total tokens, largest first.
pub open spec fn spec_summarize(files: Seq<Option<Seq<TurnView>>>, limit: nat) -> SummaryView {
    let s = spec_add_sessions(files, limit);
    SummaryView { per_model: sort_by_total(s.per_model), ..s }
}

pub open spec fn file_view(f: Option<Vec<SessionTurn>>) -> Option<Seq<TurnView>> {
    match f {
        Some(v) => Some(turn_views(v@)),
        None => None,
    }
}

pub open spec fn file_views(fs: Seq<Option<Vec<SessionTurn>>>) -> Seq<Option<Seq<TurnView>>> {
    fs.map_values(|f: Option<Vec<SessionTurn>>| file_view(f))
}

/// Number of turns in the readable files.
pub open spec fn turn_count(fs: Seq<Option<Seq<TurnView>>>) -> nat
    decreases fs.len(),
{
    if fs.len() == 0 {
        0
    } else {
        turn_count(fs.drop_last()) + match fs.last() {
            Some(ts) => ts.len(),
            None => 0,
        }
    }
}

impl UsageSummary {
    /// Counts one turn; see `spec_add_turn`.
    pub fn add_turn(&mut self, t: SessionTurn, limit: usize)
        ensures
            summary_view(*final(self)) == spec_add_turn(summary_view(*old(self)), turn_view(t), limit as nat),
    {
        self.total_input_tokens = self.total_input_tokens.wrapping_add(t.input_tokens);
        self.total_cached_input_tokens = self.total_cached_input_tokens.wrapping_add(t.cached_input_tokens);
        self.total_output_tokens = self.total_output_tokens.wrapping_add(t.output_tokens);
        self.total_tokens = self.total_tokens.wrapping_add(t.total_tokens);
        upsert_model(&mut self.per_model, &t);
        push_recent(&mut self.recent, t, limit);
    }

    /// Counts one session file (`None` when it could not be read); see
    /// `spec_add_session`.
    pub fn add_session(&mut self, turns: Option<Vec<SessionTurn>>, limit: usize)
        requires
            old(self).sessions_scanned < usize::MAX,
            turns matches Some(ts) ==> old(self).turns_scanned + ts@.len() <= usize::MAX,
        ensures
            summary_view(*final(self)) == spec_add_session(summary_view(*old(self)), file_view(turns), limit as nat),
    {
        self.sessions_scanned = self.sessions_scanned + 1;
        let ghost s1 = summary_view(*self);
        match turns {
            None => {},
            Some(ts) => {
                let mut src = ts;
                let ghost all = src@;
                let n = src.len();
                self.turns_scanned = self.turns_scanned + n;
                let ghost s2 = summary_view(*self);
                let mut i: usize = 0;
                assert(all.skip(0) =~= all);
                assert(turn_views(all).take(0) =~= Seq::<TurnView>::empty());
                while src.len() > 0
                    invariant
                        i <= n,
                        n == all.len(),
                        src@ == all.skip(i as int),
                        src@.len() + i == n,
                        summary_view(*self) == spec_add_turns(s2, turn_views(all).take(i as int), limit as nat),
                    decreases src.len(),
                {
                    let t = src.remove(0);
                    assert(t == all[i as int]);
                    assert(turn_views(all).take(i + 1).drop_last() =~= turn_views(all).take(i as int));
                    self.add_turn(t, limit);
                    assert(src@ =~= all.skip(i + 1));
                    i = i + 1;
                }
                assert(turn_views(all).take(n as int) =~= turn_views(all));
            },
        }
    }
}

/// Scans Codex session logs and summarises their turns.
pub struct SessionScanner<'a> {
    /// The layout whose session logs are read.
    pub paths: &'a Paths,
    /// Maximum number of `recent` rows to keep in memory.
    pub recent_limit: usize,
}

impl<'a> SessionScanner<'a> {
    pub fn new(paths: &'a Paths) -> (r: Self)
        ensures
            r.paths == paths,
            r.recent_limit == 50,
    {
        Self { paths, recent_limit: 50 }
    }

    /// Summarises the turns of the session files found by a scan, in the
    /// order they were found (`None` for a file that could not be read).
    pub fn summarize(&self, files: Vec<Option<Vec<SessionTurn>>>) -> (r: UsageSummary)
        requires
            turn_count(file_views(files@)) <= usize::MAX,
        ensures
            summary_view(r) == spec_summarize(file_views(files@), self.recent_limit as nat),
    {
        let limit = self.recent_limit;
        let mut s = UsageSummary::default();
        let mut src = files;
        let ghost all = src@;
        let n = src.len();
        let mut i: usize = 0;
        assert(all.skip(0) =~= all);
        assert(file_views(all).take(0) =~= Seq::<Option<Seq<TurnView>>>::empty());
        while src.len() > 0
            invariant
                i <= n,
                n == all.len(),
                src@ == all.skip(i as int),
                src@.len() + i == n,
                turn_count(file_views(all)) <= usize::MAX,
                summary_view(s) == spec_add_sessions(file_views(all).take(i as int), limit as nat),
                s.sessions_scanned == i,
                s.turns_scanned == turn_count(file_views(all).take(i as int)),
            decreases src.len(),
        {
            let f = src.remove(0);
            assert(f == all[i as int]);
            assert(file_views(all).take(i + 1).drop_last() =~= file_views(all).take(i as int));
            proof {
                lemma_turn_count_prefix(file_views(all), i as int + 1);
            }
            s.add_session(f, limit);
            proof {
                lemma_add_sessions_counts(file_views(all).take(i + 1), limit as nat);
            }
            assert(src@ =~= all.skip(i + 1));
            i = i + 1;
        }
        assert(file_views(all).take(n as int) =~= file_views(all));
        let mut per_model: Vec<ModelUsage> = Vec::new();
        std::mem::swap(&mut per_model, &mut s.per_model);
        s.per_model = sort_usage_by_total(per_model);
        s
    }
}

proof fn lemma_add_turns_counts(s: SummaryView, ts: Seq<TurnView>, limit: nat)
    ensures
        spec_add_turns(s, ts, limit).sessions == s.sessions,
        spec_add_turns(s, ts, limit).turns == s.turns,
    decreases ts.len(),
{
    if ts.len() > 0 {
        lemma_add_turns_counts(s, ts.drop_last(), limit);
    }
}

/// A summary counts every session file it was given and every turn read
/// from the readable ones.
pub proof fn lemma_add_sessions_counts(files: Seq<Option<Seq<TurnView>>>, limit: nat)
    ensures
        spec_add_sessions(files, limit).sessions == files.len(),
        spec_add_sessions(files, limit).turns == turn_count(files),
    decreases files.len(),
{
    if files.len() > 0 {
        lemma_add_sessions_counts(files.drop_last(), limit);
        let s = spec_add_sessions(files.drop_last(), limit);
        let s1 = SummaryView { sessions: s.sessions + 1, ..s };
        match files.last() {
            None => {},
            Some(ts) => {
                lemma_add_turns_counts(SummaryView { turns: s1.turns + ts.len(), ..s1 }, ts, limit);
            },
        }
    }
}

proof fn lemma_turn_count_prefix(fs: Seq<Option<Seq<TurnView>>>, k: int)
    requires
        0 <= k <= fs.len(),
    ensures
        turn_count(fs.take(k)) <= turn_count(fs),
    decreases fs.len() - k,
{
    if k < fs.len() {
        lemma_turn_count_prefix(fs, k + 1);
        assert(fs.take(k + 1).drop_last() =~= fs.take(k));
    } else {
        assert(fs.take(k) =~= fs);
    }
}

proof fn lemma_insert_newest_len(s: Seq<TurnView>, x: TurnView)
    ensures
        insert_newest_first(s, x).len() == s.len() + 1,
    decreases s.len(),
{
    if s.len() > 0 && !ts_lt(s[0].timestamp, x.timestamp) {
        lemma_insert_newest_len(s.drop_first(), x);
    }
}

proof fn lemma_sort_newest_len(s: Seq<TurnView>)
    ensures
        sort_newest_first(s).len() == s.len(),
    decreases s.len(),
{
    if s.len() > 0 {
        lemma_sort_newest_len(s.drop_last());
        lemma_insert_newest_len(sort_newest_first(s.drop_last()), s.last());
    }
}

proof fn lemma_add_turns_recent(s: SummaryView, ts: Seq<TurnView>, limit: nat)
    requires
        s.recent.len() <= limit,
    ensures
        spec_add_turns(s, ts, limit).recent.len() <= limit,
    decreases ts.len(),
{
    if ts.len() > 0 {
        lemma_add_turns_recent(s, ts.drop_last(), limit);
        let r = spec_add_turns(s, ts.drop_last(), limit).recent;
        lemma_sort_newest_len(r.push(ts.last()));
    }
}

/// The recent list of a summary never holds more than the limit.
pub proof fn lemma_recent_bounded(files: Seq<Option<Seq<TurnView>>>, limit: nat)
    ensures
        spec_summarize(files, limit).recent.len() <= limit,
    decreases files.len(),
{
    if files.len() > 0 {
        lemma_recent_bounded(files.drop_last(), limit);
        let s = spec_add_sessions(files.drop_last(), limit);
        let s1 = SummaryView { sessions: s.sessions + 1, ..s };
        match files.last() {
            None => {},
            Some(ts) => {
                lemma_add_turns_recent(SummaryView { turns: s1.turns + ts.len(), ..s1 }, ts, limit);
            },
        }
    }
}

/// Turns newest first: no turn is older than one after it.
pub open spec fn newest_first(s: Seq<TurnView>) -> bool {
    forall|i: int, j: int| 0 <= i < j < s.len() ==> !ts_lt((#[trigger] s[i]).timestamp, (#[trigger] s[j]).timestamp)
}

proof fn lemma_insert_newest_sorted(s: Seq<TurnView>, x: TurnView)
    requires
        newest_first(s),
    ensures
        newest_first(insert_newest_first(s, x)),
        insert_newest_first(s, x).to_multiset() =~= s.to_multiset().insert(x),
        forall|k: int| 0 <= k < insert_newest_first(s, x).len() ==> #[trigger] insert_newest_first(s, x)[k] == x
            || exists|j: int| 0 <= j < s.len() && insert_newest_first(s, x)[k] == s[j],
    decreases s.len(),
{
    broadcast use vstd::seq_lib::group_to_multiset_ensures, vstd::multiset::group_multiset_axioms;

    let r = insert_newest_first(s, x);
    lemma_insert_newest_len(s, x);
    if s.len() == 0 {
        assert(r =~= Seq::<TurnView>::empty().push(x));
        assert(s =~= Seq::<TurnView>::empty());
    } else if ts_lt(s[0].timestamp, x.timestamp) {
        assert(r == seq![x] + s);
        vstd::seq_lib::lemma_multiset_commutative(seq![x], s);
        assert(seq![x] =~= Seq::<TurnView>::empty().push(x));
        assert forall|k: int| 0 <= k < r.len() implies #[trigger] r[k] == x
            || exists|j: int| 0 <= j < s.len() && r[k] == s[j] by {
            if k > 0 {
                assert(r[k] == s[k - 1]);
            }
        }
        assert forall|i: int, j: int| 0 <= i < j < r.len() implies !ts_lt((#[trigger] r[i]).timestamp, (#[trigger] r[j]).timestamp) by {
            assert(r[j] == s[j - 1]);
            if i > 0 {
                assert(r[i] == s[i - 1]);
            } else if j - 1 > 0 {
                assert(!ts_lt(s[0].timestamp, s[j - 1].timestamp));
            }
        }
    } else {
        let rest = s.drop_first();
        assert(newest_first(rest)) by {
            assert forall|i: int, j: int| 0 <= i < j < rest.len() implies !ts_lt((#[trigger] rest[i]).timestamp, (#[trigger] rest[j]).timestamp) by {
                assert(rest[i] == s[i + 1] && rest[j] == s[j + 1]);
            }
        }
        lemma_insert_newest_sorted(rest, x);
        let t = insert_newest_first(rest, x);
        assert(r == seq![s[0]] + t);
        assert(s =~= seq![s[0]] + rest);
        vstd::seq_lib::lemma_multiset_commutative(seq![s[0]], t);
        vstd::seq_lib::lemma_multiset_commutative(seq![s[0]], rest);
        assert forall|k: int| 0 <= k < r.len() implies #[trigger] r[k] == x
            || exists|j: int| 0 <= j < s.len() && r[k] == s[j] by {
            if k == 0 {
                assert(r[0] == s[0]);
            } else {
                assert(r[k] == t[k - 1]);
                if t[k - 1] != x {
                    let j = choose|j: int| 0 <= j < rest.len() && t[k - 1] == rest[j];
                    assert(r[k] == s[j + 1]);
                }
            }
        }
        assert forall|i: int, j: int| 0 <= i < j < r.len() implies !ts_lt((#[trigger] r[i]).timestamp, (#[trigger] r[j]).timestamp) by {
            assert(r[j] == t[j - 1]);
            if i == 0 {
                if t[j - 1] != x {
                    let m = choose|m: int| 0 <= m < rest.len() && t[j - 1] == rest[m];
                    assert(rest[m] == s[m + 1]);
                }
            } else {
                assert(r[i] == t[i - 1]);
            }
        }
    }
}

proof fn lemma_sort_newest_sorted(s: Seq<TurnView>)
    ensures
        newest_first(sort_newest_first(s)),
        sort_newest_first(s).to_multiset() =~= s.to_multiset(),
    decreases s.len(),
{
    broadcast use vstd::seq_lib::group_to_multiset_ensures;

    if s.len() > 0 {
        lemma_sort_newest_sorted(s.drop_last());
        lemma_insert_newest_sorted(sort_newest_first(s.drop_last()), s.last());
        assert(s.drop_last().push(s.last()) =~= s);
    }
}

/// The turns that adding `t` drops from the recent list.
proof fn push_recent_dropped(recent: Seq<TurnView>, t: TurnView, limit: nat) -> (dropped: Seq<TurnView>)
    ensures
        spec_push_recent(recent, t, limit).len() == (if recent.len() + 1 > limit {
            limit as int
        } else {
            recent.len() + 1int
        }),
        (spec_push_recent(recent, t, limit) + dropped).to_multiset() =~= recent.push(t).to_multiset(),
        dropped.len() + spec_push_recent(recent, t, limit).len() == recent.len() + 1,
        forall|i: int, j: int|
            0 <= i < spec_push_recent(recent, t, limit).len() && 0 <= j < dropped.len() ==> !ts_lt(
                (#[trigger] spec_push_recent(recent, t, limit)[i]).timestamp,
                (#[trigger] dropped[j]).timestamp,
            ),
{
    let all = recent.push(t);
    let r = spec_push_recent(recent, t, limit);
    if all.len() > limit {
        let sorted = sort_newest_first(all);
        lemma_sort_newest_sorted(all);
        lemma_sort_newest_len(all);
        let dropped = sorted.skip(limit as int);
        assert(r + dropped =~= sorted);
        assert forall|i: int, j: int| 0 <= i < r.len() && 0 <= j < dropped.len() implies !ts_lt(
            (#[trigger] r[i]).timestamp,
            (#[trigger] dropped[j]).timestamp,
        ) by {
            assert(r[i] == sorted[i] && dropped[j] == sorted[limit + j]);
        }
        dropped
    } else {
        let dropped = Seq::<TurnView>::empty();
        assert(r + dropped =~= all);
        dropped
    }
}

/// Adding a turn to the recent list keeps the newest turns: the list holds
/// the limit at most (all turns while they fit), and what it keeps and what
/// it drops are together the list before plus the new turn, with no kept
/// turn older than a dropped one.
pub proof fn lemma_push_recent_keeps_newest(recent: Seq<TurnView>, t: TurnView, limit: nat)
    ensures
        spec_push_recent(recent, t, limit).len() == (if recent.len() + 1 > limit {
            limit as int
        } else {
            recent.len() + 1int
        }),
        exists|dropped: Seq<TurnView>|
            {
                &&& (spec_push_recent(recent, t, limit) + dropped).to_multiset() == recent.push(t).to_multiset()
                &&& forall|i: int, j: int|
                    0 <= i < spec_push_recent(recent, t, limit).len() && 0 <= j < dropped.len() ==> !ts_lt(
                        (#[trigger] spec_push_recent(recent, t, limit)[i]).timestamp,
                        (#[trigger] dropped[j]).timestamp,
                    )
            },
{
    let dropped = push_recent_dropped(recent, t, limit);
}

/// A recent list that holds the newest of the turns seen, `dropped` being
/// the others: at most `limit` of them, `limit` once any was dropped, and
/// none older than a dropped turn.
pub open spec fn keeps_newest(recent: Seq<TurnView>, dropped: Multiset<TurnView>, limit: nat) -> bool {
    &&& recent.len() <= limit
    &&& dropped.len() > 0 ==> recent.len() == limit
    &&& forall|i: int, d: TurnView|
        #![trigger recent[i], dropped.count(d)]
        0 <= i < recent.len() && dropped.count(d) > 0 ==> !ts_lt(recent[i].timestamp, d.timestamp)
}

proof fn lemma_push_keeps_newest(recent: Seq<TurnView>, dropped: Multiset<TurnView>, t: TurnView, limit: nat) -> (d2: Multiset<TurnView>)
    requires
        keeps_newest(recent, dropped, limit),
    ensures
        keeps_newest(spec_push_recent(recent, t, limit), d2, limit),
        spec_push_recent(recent, t, limit).to_multiset().add(d2) =~= recent.to_multiset().insert(t).add(dropped),
{
    broadcast use vstd::seq_lib::group_to_multiset_ensures, vstd::multiset::group_multiset_axioms;

    let r = spec_push_recent(recent, t, limit);
    let out = push_recent_dropped(recent, t, limit);
    vstd::seq_lib::lemma_multiset_commutative(r, out);
    let d2 = dropped.add(out.to_multiset());
    if out.len() == 0 {
        assert(out.to_multiset() =~= Multiset::<TurnView>::empty());
        if dropped.len() > 0 {
            assert(r.len() == recent.len() + 1);
            assert(false);
        }
    }
    assert forall|i: int, d: TurnView| 0 <= i < r.len() && #[trigger] d2.count(d) > 0 implies !ts_lt(
        #[trigger] r[i].timestamp,
        d.timestamp,
    ) by {
        if out.to_multiset().count(d) > 0 {
            let j = out.index_of(d);
            assert(out.contains(d));
            assert(out[j] == d);
        } else {
            assert(dropped.count(d) > 0);
            assert(dropped.len() > 0);
            assert(recent.len() == limit);
            assert(out.len() == 1);
            let e = out[0];
            assert(r.to_multiset().count(r[i]) > 0);
            assert(r.to_multiset().add(out.to_multiset()) =~= recent.to_multiset().insert(t));
            if recent.to_multiset().count(r[i]) > 0 {
                let k = recent.index_of(r[i]);
                assert(recent.contains(r[i]));
                assert(recent[k] == r[i]);
            } else {
                let all = recent.to_multiset().insert(t);
                assert(all.count(r[i]) == r.to_multiset().count(r[i]) + out.to_multiset().count(r[i]));
                if r[i] != t {
                    assert(all.count(r[i]) == recent.to_multiset().count(r[i]));
                    assert(false);
                }
                assert(r[i] == t);
                assert(out.to_multiset().count(e) > 0) by {
                    assert(out.contains(e)) by {
                        assert(out[0] == e);
                    }
                }
                if e == t {
                    assert(all.count(t) == recent.to_multiset().count(t) + 1);
                    assert(all.count(t) == r.to_multiset().count(t) + out.to_multiset().count(t));
                    assert(false);
                }
                assert(all.count(e) == r.to_multiset().count(e) + out.to_multiset().count(e));
                assert(all.count(e) == recent.to_multiset().count(e));
                assert(recent.to_multiset().count(e) > 0);
                let k = recent.index_of(e);
                assert(recent.contains(e));
                assert(recent[k] == e);
                assert(!ts_lt(r[i].timestamp, out[0].timestamp));
            }
        }
    }
    d2
}

proof fn lemma_add_turns_keeps_newest(s: SummaryView, ts: Seq<TurnView>, limit: nat, dropped: Multiset<TurnView>) -> (d2: Multiset<TurnView>)
    requires
        keeps_newest(s.recent, dropped, limit),
    ensures
        keeps_newest(spec_add_turns(s, ts, limit).recent, d2, limit),
        spec_add_turns(s, ts, limit).recent.to_multiset().add(d2) =~= s.recent.to_multiset().add(dropped).add(
            ts.to_multiset(),
        ),
    decreases ts.len(),
{
    broadcast use vstd::seq_lib::group_to_multiset_ensures, vstd::multiset::group_multiset_axioms;

    if ts.len() == 0 {
        assert(ts.to_multiset() =~= Multiset::<TurnView>::empty());
        dropped
    } else {
        let init = ts.drop_last();
        let d1 = lemma_add_turns_keeps_newest(s, init, limit, dropped);
        let r1 = spec_add_turns(s, init, limit).recent;
        let t = ts.last();
        let d2 = lemma_push_keeps_newest(r1, d1, t, limit);
        assert(init.push(t) =~= ts);
        assert(ts.to_multiset() =~= init.to_multiset().insert(t));
        assert(spec_add_turns(s, ts, limit).recent == spec_push_recent(r1, t, limit));
        assert(r1.to_multiset().insert(t).add(d1) =~= r1.to_multiset().add(d1).insert(t));
        assert(s.recent.to_multiset().add(dropped).add(init.to_multiset()).insert(t)
            =~= s.recent.to_multiset().add(dropped).add(init.to_multiset().insert(t)));
        d2
    }
}

/// The turns of the readable session files, in order.
pub open spec fn all_turns(files: Seq<Option<Seq<TurnView>>>) -> Seq<TurnView>
    decreases files.len(),
{
    if files.len() == 0 {
        Seq::empty()
    } else {
        all_turns(files.drop_last()) + match files.last() {
            Some(ts) => ts,
            None => Seq::empty(),
        }
    }
}

proof fn lemma_add_sessions_keeps_newest(files: Seq<Option<Seq<TurnView>>>, limit: nat) -> (dropped: Multiset<TurnView>)
    ensures
        keeps_newest(spec_add_sessions(files, limit).recent, dropped, limit),
        spec_add_sessions(files, limit).recent.to_multiset().add(dropped) =~= all_turns(files).to_multiset(),
    decreases files.len(),
{
    broadcast use vstd::seq_lib::group_to_multiset_ensures, vstd::multiset::group_multiset_axioms;

    if files.len() == 0 {
        let d = Multiset::<TurnView>::empty();
        assert(spec_add_sessions(files, limit).recent =~= Seq::<TurnView>::empty());
        assert(all_turns(files) =~= Seq::<TurnView>::empty());
        d
    } else {
        let d0 = lemma_add_sessions_keeps_newest(files.drop_last(), limit);
        let s = spec_add_sessions(files.drop_last(), limit);
        let s1 = SummaryView { sessions: s.sessions + 1, ..s };
        match files.last() {
            None => {
                assert(all_turns(files) =~= all_turns(files.drop_last()));
                d0
            },
            Some(ts) => {
                let s2 = SummaryView { turns: s1.turns + ts.len(), ..s1 };
                let d = lemma_add_turns_keeps_newest(s2, ts, limit, d0);
                vstd::seq_lib::lemma_multiset_commutative(all_turns(files.drop_last()), ts);
                assert(all_turns(files) =~= all_turns(files.drop_last()) + ts);
                d
            },
        }
    }
}

/// The recent list of a summary holds the newest turns of all the readable
/// session files: at most `limit` of them (all while they fit), and no turn
/// left out is newer than one it holds. With the turns left out it makes up
/// exactly the turns of the files.
pub proof fn lemma_recent_keeps_newest(files: Seq<Option<Seq<TurnView>>>, limit: nat)
    ensures
        exists|dropped: Multiset<TurnView>|
            {
                &&& spec_summarize(files, limit).recent.to_multiset().add(dropped) == all_turns(files).to_multiset()
                &&& keeps_newest(spec_summarize(files, limit).recent, dropped, limit)
            },
{
    let dropped = lemma_add_sessions_keeps_newest(files, limit);
    assert(spec_summarize(files, limit).recent == spec_add_sessions(files, limit).recent);
}

/// What every turn read from a session log satisfies: its total counts all
/// its tokens (uncached input, cached input and output, summed with `i64`
/// wrapping), it carries the log's session id, it is not before `since`,
/// and it has tokens or a model.
pub open spec fn well_read_turn(t: TurnView, sid: Seq<char>, since: Option<Timestamp>) -> bool {
    &&& t.total_tokens == t.input_tokens.wrapping_add(t.cached_input_tokens).wrapping_add(t.output_tokens)
    &&& t.session_id == sid
    &&& since matches Some(s) ==> !ts_lt(t.timestamp, s)
    &&& t.total_tokens > 0 || t.model is Some
}

proof fn lemma_fold_lines_well_read(lines: Seq<Seq<char>>, sid: Seq<char>, now: Timestamp, since: Option<Timestamp>)
    ensures
        forall|k: int|
            0 <= k < spec_fold_lines(lines, sid, now, since).1.len() ==> well_read_turn(
                #[trigger] spec_fold_lines(lines, sid, now, since).1[k],
                sid,
                since,
            ),
    decreases lines.len(),
{
    if lines.len() > 0 {
        lemma_fold_lines_well_read(lines.drop_last(), sid, now, since);
        let (ctx, turns) = spec_fold_lines(lines.drop_last(), sid, now, since);
        let (ctx2, t) = spec_step(ctx, lines.last(), sid, now, since);
        let all = spec_fold_lines(lines, sid, now, since).1;
        assert(all == turns + t);
        assert forall|k: int| 0 <= k < all.len() implies well_read_turn(#[trigger] all[k], sid, since) by {
            if k >= turns.len() {
                assert(all[k] == t[k - turns.len()]);
            } else {
                assert(all[k] == turns[k]);
            }
        }
    }
}

/// Every turn read from a session log counts all its tokens: its total is
/// its uncached input, cached input and output tokens summed (wrapping in
/// `i64`). It carries the log's session id, is not before `since`, and has
/// tokens or a model.
pub proof fn lemma_parsed_turns_well_read(raw: Seq<char>, sid: Seq<char>, now: Timestamp, since: Option<Timestamp>)
    ensures
        forall|k: int|
            0 <= k < spec_parse_session(raw, sid, now, since).len() ==> well_read_turn(
                #[trigger] spec_parse_session(raw, sid, now, since)[k],
                sid,
                since,
            ),
{
    lemma_fold_lines_well_read(split_char(raw, '\n'), sid, now, since);
}

/// What one log line does: at most one turn comes of it, and only from a
/// `task_complete` event, which leaves the context as it was; the turn's
/// model is the one the event's payload names, else the one the context
/// last announced. Only a `turn_context` event with a payload changes the
/// context, to the model and cwd that payload names.
pub proof fn lemma_step_model_and_context(
    ctx: LogContext,
    line: Seq<char>,
    sid: Seq<char>,
    now: Timestamp,
    since: Option<Timestamp>,
)
    ensures
        spec_step(ctx, line, sid, now, since).1.len() <= 1,
        spec_step(ctx, line, sid, now, since).1.len() == 1 ==> {
            &&& spec_line_value(line) matches Some(v)
            &&& opt_str(json_get(v, "type"@)) == Some("task_complete"@)
            &&& spec_step(ctx, line, sid, now, since).0 == ctx
            &&& spec_step(ctx, line, sid, now, since).1[0].model == match opt_str(
                opt_get(json_get(v, "payload"@), "model"@),
            ) {
                Some(m) => Some(m),
                None => ctx.model,
            }
        },
        spec_step(ctx, line, sid, now, since).0 != ctx ==> {
            &&& spec_line_value(line) matches Some(v)
            &&& opt_str(json_get(v, "type"@)) == Some("turn_context"@)
            &&& json_get(v, "payload"@) matches Some(p)
            &&& spec_step(ctx, line, sid, now, since).0 == LogContext {
                model: opt_str(json_get(p, "model"@)),
                cwd: opt_str(json_get(p, "cwd"@)),
            }
            &&& spec_step(ctx, line, sid, now, since).1.len() == 0
        },
{
    reveal_strlit("task_complete");
    reveal_strlit("turn_context");
    match spec_line_value(line) {
        None => {},
        Some(v) => {
            let ty = match opt_str(json_get(v, "type"@)) {
                Some(t) => t,
                None => Seq::empty(),
            };
            if opt_str(json_get(v, "type"@)) is None {
                assert(ty.len() == 0);
                assert("turn_context"@.len() == 12);
                assert("task_complete"@.len() == 13);
            }
        },
    }
}

/// Rows ordered by total tokens, largest first.
pub open spec fn by_total_desc(s: Seq<ModelUsageView>) -> bool {
    forall|i: int, j: int| 0 <= i < j < s.len() ==> !((#[trigger] s[i]).total_tokens < (#[trigger] s[j]).total_tokens)
}

proof fn lemma_insert_by_total_sorted(s: Seq<ModelUsageView>, x: ModelUsageView)
    requires
        by_total_desc(s),
    ensures
        by_total_desc(insert_by_total(s, x)),
        insert_by_total(s, x).len() == s.len() + 1,
        forall|k: int| 0 <= k < insert_by_total(s, x).len() ==> #[trigger] insert_by_total(s, x)[k] == x
            || exists|j: int| 0 <= j < s.len() && insert_by_total(s, x)[k] == s[j],
    decreases s.len(),
{
    let r = insert_by_total(s, x);
    if s.len() == 0 {
    } else if s[0].total_tokens < x.total_tokens {
        assert(r == seq![x] + s);
        assert forall|k: int| 0 <= k < r.len() implies #[trigger] r[k] == x
            || exists|j: int| 0 <= j < s.len() && r[k] == s[j] by {
            if k > 0 {
                assert(r[k] == s[k - 1]);
            }
        }
        assert forall|i: int, j: int| 0 <= i < j < r.len() implies !((#[trigger] r[i]).total_tokens < (#[trigger] r[j]).total_tokens) by {
            if i == 0 {
                assert(r[j] == s[j - 1]);
                if j - 1 > 0 {
                    assert(!(s[0].total_tokens < s[j - 1].total_tokens));
                }
            } else {
                assert(r[i] == s[i - 1] && r[j] == s[j - 1]);
            }
        }
    } else {
        let rest = s.drop_first();
        assert(by_total_desc(rest)) by {
            assert forall|i: int, j: int| 0 <= i < j < rest.len() implies !((#[trigger] rest[i]).total_tokens < (#[trigger] rest[j]).total_tokens) by {
                assert(rest[i] == s[i + 1] && rest[j] == s[j + 1]);
            }
        }
        lemma_insert_by_total_sorted(rest, x);
        let t = insert_by_total(rest, x);
        assert(r == seq![s[0]] + t);
        assert forall|k: int| 0 <= k < r.len() implies #[trigger] r[k] == x
            || exists|j: int| 0 <= j < s.len() && r[k] == s[j] by {
            if k == 0 {
                assert(r[0] == s[0]);
            } else {
                assert(r[k] == t[k - 1]);
                if t[k - 1] != x {
                    let j = choose|j: int| 0 <= j < rest.len() && t[k - 1] == rest[j];
                    assert(r[k] == s[j + 1]);
                }
            }
        }
        assert forall|i: int, j: int| 0 <= i < j < r.len() implies !((#[trigger] r[i]).total_tokens < (#[trigger] r[j]).total_tokens) by {
            if i == 0 {
                assert(r[j] == t[j - 1]);
                if t[j - 1] != x {
                    let m = choose|m: int| 0 <= m < rest.len() && t[j - 1] == rest[m];
                    assert(rest[m] == s[m + 1]);
                    assert(!(s[0].total_tokens < s[m + 1].total_tokens));
                }
            } else {
                assert(r[i] == t[i - 1] && r[j] == t[j - 1]);
            }
        }
    }
}

/// The per-model rows of a summary come largest total first.
pub proof fn lemma_per_model_sorted(s: Seq<ModelUsageView>)
    ensures
        by_total_desc(sort_by_total(s)),
        sort_by_total(s).len() == s.len(),
    decreases s.len(),
{
    if s.len() > 0 {
        lemma_per_model_sorted(s.drop_last());
        lemma_insert_by_total_sorted(sort_by_total(s.drop_last()), s.last());
    }
}


/// The token counts of the turns that name model `m`, each summed with
/// `i64` wrapping: uncached input, cached input, output and total.
pub open spec fn model_token_sums(ts: Seq<TurnView>, m: Seq<char>) -> (i64, i64, i64, i64)
    decreases ts.len(),
{
    if ts.len() == 0 {
        (0, 0, 0, 0)
    } else {
        let (a, b, c, d) = model_token_sums(ts.drop_last(), m);
        let t = ts.last();
        if t.model == Some(m) {
            (
                a.wrapping_add(t.input_tokens),
                b.wrapping_add(t.cached_input_tokens),
                c.wrapping_add(t.output_tokens),
                d.wrapping_add(t.total_tokens),
            )
        } else {
            (a, b, c, d)
        }
    }
}

/// The counts of a per-model row, in the order of `model_token_sums`.
pub open spec fn row_counts(r: ModelUsageView) -> (i64, i64, i64, i64) {
    (r.input_tokens, r.cached_input_tokens, r.output_tokens, r.total_tokens)
}

/// Turns counted in order into per-model rows.
pub open spec fn upsert_all(rows: Seq<ModelUsageView>, ts: Seq<TurnView>) -> Seq<ModelUsageView>
    decreases ts.len(),
{
    if ts.len() == 0 {
        rows
    } else {
        spec_upsert_model(upsert_all(rows, ts.drop_last()), ts.last())
    }
}

proof fn lemma_find_model_spec(rows: Seq<ModelUsageView>, m: Seq<char>)
    ensures
        find_model(rows, m) < rows.len(),
        find_model(rows, m) >= 0 ==> rows[find_model(rows, m)].model == m,
        find_model(rows, m) < 0 ==> forall|k: int| 0 <= k < rows.len() ==> (#[trigger] rows[k]).model != m,
    decreases rows.len(),
{
    if rows.len() > 0 {
        lemma_find_model_spec(rows.drop_first(), m);
        assert forall|k: int| 0 < k < rows.len() implies rows[k] == rows.drop_first()[k - 1] by {}
    }
}

proof fn lemma_sums_unnamed(ts: Seq<TurnView>, m: Seq<char>)
    requires
        forall|j: int| 0 <= j < ts.len() ==> (#[trigger] ts[j]).model != Some(m),
    ensures
        model_token_sums(ts, m) == (0i64, 0i64, 0i64, 0i64),
    decreases ts.len(),
{
    if ts.len() > 0 {
        assert(ts.last() == ts[ts.len() - 1]);
        lemma_sums_unnamed(ts.drop_last(), m);
    }
}

/// The per-model rows built from turns hold each model once, one row for
/// every model a turn names, and each row's counts are the sums of that
/// model's turns.
proof fn lemma_upsert_all_sums(ts: Seq<TurnView>)
    ensures
        forall|k: int| 0 <= k < upsert_all(Seq::empty(), ts).len() ==> row_counts(
            #[trigger] upsert_all(Seq::empty(), ts)[k],
        ) == model_token_sums(ts, upsert_all(Seq::empty(), ts)[k].model),
        forall|i: int, j: int|
            0 <= i < j < upsert_all(Seq::empty(), ts).len() ==> (#[trigger] upsert_all(Seq::empty(), ts)[i]).model
                != (#[trigger] upsert_all(Seq::empty(), ts)[j]).model,
        forall|j: int|
            0 <= j < ts.len() && (#[trigger] ts[j]).model is Some ==> exists|k: int|
                0 <= k < upsert_all(Seq::empty(), ts).len() && upsert_all(Seq::empty(), ts)[k].model == ts[j].model->0,
    decreases ts.len(),
{
    if ts.len() > 0 {
        let init = ts.drop_last();
        let t = ts.last();
        lemma_upsert_all_sums(init);
        let r0 = upsert_all(Seq::empty(), init);
        let r1 = upsert_all(Seq::empty(), ts);
        assert(r1 == spec_upsert_model(r0, t));
        assert forall|j: int| 0 <= j < init.len() implies ts[j] == #[trigger] init[j] by {}
        match t.model {
            None => {
                assert forall|k: int| 0 <= k < r1.len() implies row_counts(#[trigger] r1[k]) == model_token_sums(ts, r1[k].model) by {
                    assert(r1[k] == r0[k]);
                }
                assert forall|j: int| 0 <= j < ts.len() && (#[trigger] ts[j]).model is Some implies exists|k: int|
                    0 <= k < r1.len() && r1[k].model == ts[j].model->0 by {
                    assert(ts[j] == init[j]);
                }
            },
            Some(m) => {
                let i = find_model(r0, m);
                lemma_find_model_spec(r0, m);
                if i >= 0 {
                    assert forall|k: int| 0 <= k < r1.len() implies row_counts(#[trigger] r1[k]) == model_token_sums(ts, r1[k].model) by {
                        if k != i {
                            assert(r1[k] == r0[k]);
                            assert(r0[k].model != r0[i].model);
                        }
                    }
                    assert forall|a: int, b: int| 0 <= a < b < r1.len() implies (#[trigger] r1[a]).model != (#[trigger] r1[b]).model by {
                        assert(r1[a].model == r0[a].model && r1[b].model == r0[b].model);
                    }
                    assert forall|j: int| 0 <= j < ts.len() && (#[trigger] ts[j]).model is Some implies exists|k: int|
                        0 <= k < r1.len() && r1[k].model == ts[j].model->0 by {
                        if j < init.len() {
                            assert(ts[j] == init[j]);
                            let k = choose|k: int| 0 <= k < r0.len() && r0[k].model == init[j].model->0;
                            assert(r1[k].model == r0[k].model);
                        } else {
                            assert(r1[i].model == m);
                        }
                    }
                } else {
                    assert forall|j: int| 0 <= j < init.len() implies (#[trigger] init[j]).model != Some(m) by {
                        if init[j].model == Some(m) {
                            let k = choose|k: int| 0 <= k < r0.len() && r0[k].model == init[j].model->0;
                            assert(r0[k].model != m);
                        }
                    }
                    lemma_sums_unnamed(init, m);
                    assert forall|k: int| 0 <= k < r1.len() implies row_counts(#[trigger] r1[k]) == model_token_sums(ts, r1[k].model) by {
                        if k < r0.len() {
                            assert(r1[k] == r0[k]);
                        }
                    }
                    assert forall|a: int, b: int| 0 <= a < b < r1.len() implies (#[trigger] r1[a]).model != (#[trigger] r1[b]).model by {
                        if b < r0.len() {
                            assert(r1[a] == r0[a] && r1[b] == r0[b]);
                        } else {
                            assert(r1[a] == r0[a]);
                        }
                    }
                    assert forall|j: int| 0 <= j < ts.len() && (#[trigger] ts[j]).model is Some implies exists|k: int|
                        0 <= k < r1.len() && r1[k].model == ts[j].model->0 by {
                        if j < init.len() {
                            assert(ts[j] == init[j]);
                            let k = choose|k: int| 0 <= k < r0.len() && r0[k].model == init[j].model->0;
                            assert(r1[k] == r0[k]);
                        } else {
                            assert(r1[r0.len() as int].model == m);
                        }
                    }
                }
            },
        }
    }
}

proof fn lemma_upsert_all_append(rows: Seq<ModelUsageView>, a: Seq<TurnView>, b: Seq<TurnView>)
    ensures
        upsert_all(upsert_all(rows, a), b) == upsert_all(rows, a + b),
    decreases b.len(),
{
    if b.len() == 0 {
        assert(a + b =~= a);
    } else {
        lemma_upsert_all_append(rows, a, b.drop_last());
        assert((a + b).drop_last() =~= a + b.drop_last());
        assert((a + b).last() == b.last());
    }
}

proof fn lemma_add_turns_rows(s: SummaryView, ts: Seq<TurnView>, limit: nat)
    ensures
        spec_add_turns(s, ts, limit).per_model == upsert_all(s.per_model, ts),
    decreases ts.len(),
{
    if ts.len() > 0 {
        lemma_add_turns_rows(s, ts.drop_last(), limit);
    }
}

proof fn lemma_add_sessions_rows(files: Seq<Option<Seq<TurnView>>>, limit: nat)
    ensures
        spec_add_sessions(files, limit).per_model == upsert_all(Seq::empty(), all_turns(files)),
    decreases files.len(),
{
    if files.len() > 0 {
        lemma_add_sessions_rows(files.drop_last(), limit);
        let s = spec_add_sessions(files.drop_last(), limit);
        let s1 = SummaryView { sessions: s.sessions + 1, ..s };
        match files.last() {
            None => {
                assert(all_turns(files) =~= all_turns(files.drop_last()));
            },
            Some(ts) => {
                let s2 = SummaryView { turns: s1.turns + ts.len(), ..s1 };
                lemma_add_turns_rows(s2, ts, limit);
                lemma_upsert_all_append(Seq::empty(), all_turns(files.drop_last()), ts);
                assert(all_turns(files) =~= all_turns(files.drop_last()) + ts);
            },
        }
    }
}

proof fn lemma_sort_by_total_members(s: Seq<ModelUsageView>)
    ensures
        sort_by_total(s).len() == s.len(),
        forall|k: int| 0 <= k < sort_by_total(s).len() ==> exists|j: int| 0 <= j < s.len() && #[trigger] sort_by_total(s)[k] == s[j],
        forall|j: int| 0 <= j < s.len() ==> exists|k: int| 0 <= k < sort_by_total(s).len() && sort_by_total(s)[k] == #[trigger] s[j],
{
    lemma_sort_by_total_from(s);
    lemma_sort_by_total_keeps(s);
}

proof fn lemma_sort_by_total_from(s: Seq<ModelUsageView>)
    ensures
        sort_by_total(s).len() == s.len(),
        forall|k: int| 0 <= k < sort_by_total(s).len() ==> exists|j: int| 0 <= j < s.len() && #[trigger] sort_by_total(s)[k] == s[j],
    decreases s.len(),
{
    if s.len() > 0 {
        let init = s.drop_last();
        let x = s.last();
        lemma_sort_by_total_from(init);
        let u = sort_by_total(init);
        lemma_insert_by_total_from(u, x);
        let r = sort_by_total(s);
        assert(r == insert_by_total(u, x));
        assert forall|k: int| 0 <= k < r.len() implies exists|j: int| 0 <= j < s.len() && #[trigger] r[k] == s[j] by {
            if r[k] == x {
                assert(r[k] == s[s.len() - 1]);
            } else {
                let m = choose|m: int| 0 <= m < u.len() && r[k] == u[m];
                let n = choose|n: int| 0 <= n < init.len() && u[m] == init[n];
                assert(r[k] == s[n]);
            }
        }
    }
}

proof fn lemma_sort_by_total_keeps(s: Seq<ModelUsageView>)
    ensures
        forall|j: int| 0 <= j < s.len() ==> exists|k: int| 0 <= k < sort_by_total(s).len() && sort_by_total(s)[k] == #[trigger] s[j],
    decreases s.len(),
{
    if s.len() > 0 {
        let init = s.drop_last();
        let x = s.last();
        lemma_sort_by_total_keeps(init);
        let u = sort_by_total(init);
        lemma_insert_by_total_keeps(u, x);
        let r = sort_by_total(s);
        assert(r == insert_by_total(u, x));
        assert forall|j: int| 0 <= j < s.len() implies exists|k: int| 0 <= k < r.len() && r[k] == #[trigger] s[j] by {
            if j == s.len() - 1 {
                let k = choose|k: int| 0 <= k < r.len() && r[k] == x;
                assert(r[k] == s[j]);
            } else {
                assert(s[j] == init[j]);
                let m = choose|m: int| 0 <= m < u.len() && u[m] == init[j];
                let k = choose|k: int| 0 <= k < r.len() && r[k] == u[m];
                assert(r[k] == s[j]);
            }
        }
    }
}

proof fn lemma_insert_by_total_from(s: Seq<ModelUsageView>, x: ModelUsageView)
    ensures
        insert_by_total(s, x).len() == s.len() + 1,
        forall|k: int| 0 <= k < insert_by_total(s, x).len() ==> #[trigger] insert_by_total(s, x)[k] == x
            || exists|j: int| 0 <= j < s.len() && insert_by_total(s, x)[k] == s[j],
    decreases s.len(),
{
    let r = insert_by_total(s, x);
    if s.len() == 0 {
    } else if s[0].total_tokens < x.total_tokens {
        assert forall|k: int| 0 <= k < r.len() implies #[trigger] r[k] == x
            || exists|j: int| 0 <= j < s.len() && r[k] == s[j] by {
            if k > 0 {
                assert(r[k] == s[k - 1]);
            }
        }
    } else {
        let rest = s.drop_first();
        lemma_insert_by_total_from(rest, x);
        let t = insert_by_total(rest, x);
        assert(r == seq![s[0]] + t);
        assert forall|k: int| 0 <= k < r.len() implies #[trigger] r[k] == x
            || exists|j: int| 0 <= j < s.len() && r[k] == s[j] by {
            if k == 0 {
                assert(r[0] == s[0]);
            } else {
                assert(r[k] == t[k - 1]);
                if t[k - 1] != x {
                    let j = choose|j: int| 0 <= j < rest.len() && t[k - 1] == rest[j];
                    assert(r[k] == s[j + 1]);
                }
            }
        }
    }
}

proof fn lemma_insert_by_total_keeps(s: Seq<ModelUsageView>, x: ModelUsageView)
    ensures
        exists|k: int| 0 <= k < insert_by_total(s, x).len() && insert_by_total(s, x)[k] == x,
        forall|j: int| 0 <= j < s.len() ==> exists|k: int| 0 <= k < insert_by_total(s, x).len() && insert_by_total(s, x)[k] == #[trigger] s[j],
    decreases s.len(),
{
    let r = insert_by_total(s, x);
    if s.len() == 0 {
        assert(r[0] == x);
    } else if s[0].total_tokens < x.total_tokens {
        assert(r[0] == x);
        assert forall|j: int| 0 <= j < s.len() implies exists|k: int| 0 <= k < r.len() && r[k] == #[trigger] s[j] by {
            assert(r[j + 1] == s[j]);
        }
    } else {
        let rest = s.drop_first();
        lemma_insert_by_total_keeps(rest, x);
        let t = insert_by_total(rest, x);
        assert(r == seq![s[0]] + t);
        let kx = choose|k: int| 0 <= k < t.len() && t[k] == x;
        assert(r[kx + 1] == x);
        assert forall|j: int| 0 <= j < s.len() implies exists|k: int| 0 <= k < r.len() && r[k] == #[trigger] s[j] by {
            if j == 0 {
                assert(r[0] == s[0]);
            } else {
                assert(s[j] == rest[j - 1]);
                let k = choose|k: int| 0 <= k < t.len() && t[k] == rest[j - 1];
                assert(r[k + 1] == s[j]);
            }
        }
    }
}

/// No model names two of the rows.
pub open spec fn models_distinct(s: Seq<ModelUsageView>) -> bool {
    forall|i: int, j: int| 0 <= i < j < s.len() ==> (#[trigger] s[i]).model != (#[trigger] s[j]).model
}

proof fn lemma_insert_by_total_distinct(s: Seq<ModelUsageView>, x: ModelUsageView)
    requires
        models_distinct(s),
        forall|k: int| 0 <= k < s.len() ==> (#[trigger] s[k]).model != x.model,
    ensures
        models_distinct(insert_by_total(s, x)),
        forall|k: int| 0 <= k < insert_by_total(s, x).len() ==> #[trigger] insert_by_total(s, x)[k] == x
            || exists|j: int| 0 <= j < s.len() && insert_by_total(s, x)[k] == s[j],
    decreases s.len(),
{
    let r = insert_by_total(s, x);
    if s.len() == 0 {
    } else if s[0].total_tokens < x.total_tokens {
        assert forall|k: int| 0 <= k < r.len() implies #[trigger] r[k] == x
            || exists|j: int| 0 <= j < s.len() && r[k] == s[j] by {
            if k > 0 {
                assert(r[k] == s[k - 1]);
            }
        }
        assert forall|i: int, j: int| 0 <= i < j < r.len() implies (#[trigger] r[i]).model != (#[trigger] r[j]).model by {
            assert(r[j] == s[j - 1]);
            if i > 0 {
                assert(r[i] == s[i - 1]);
            }
        }
    } else {
        let rest = s.drop_first();
        assert forall|i: int, j: int| 0 <= i < j < rest.len() implies (#[trigger] rest[i]).model != (#[trigger] rest[j]).model by {
            assert(rest[i] == s[i + 1] && rest[j] == s[j + 1]);
        }
        assert forall|k: int| 0 <= k < rest.len() implies (#[trigger] rest[k]).model != x.model by {
            assert(rest[k] == s[k + 1]);
        }
        lemma_insert_by_total_distinct(rest, x);
        let t = insert_by_total(rest, x);
        assert(r == seq![s[0]] + t);
        assert forall|k: int| 0 <= k < r.len() implies #[trigger] r[k] == x
            || exists|j: int| 0 <= j < s.len() && r[k] == s[j] by {
            if k == 0 {
                assert(r[0] == s[0]);
            } else {
                assert(r[k] == t[k - 1]);
                if t[k - 1] != x {
                    let j = choose|j: int| 0 <= j < rest.len() && t[k - 1] == rest[j];
                    assert(r[k] == s[j + 1]);
                }
            }
        }
        assert forall|i: int, j: int| 0 <= i < j < r.len() implies (#[trigger] r[i]).model != (#[trigger] r[j]).model by {
            assert(r[j] == t[j - 1]);
            if i == 0 {
                if t[j - 1] != x {
                    let m = choose|m: int| 0 <= m < rest.len() && t[j - 1] == rest[m];
                    assert(rest[m] == s[m + 1]);
                }
            } else {
                assert(r[i] == t[i - 1]);
            }
        }
    }
}

proof fn lemma_sort_by_total_distinct(s: Seq<ModelUsageView>)
    requires
        models_distinct(s),
    ensures
        models_distinct(sort_by_total(s)),
    decreases s.len(),
{
    if s.len() > 0 {
        let init = s.drop_last();
        let x = s.last();
        assert forall|i: int, j: int| 0 <= i < j < init.len() implies (#[trigger] init[i]).model != (#[trigger] init[j]).model by {
            assert(init[i] == s[i] && init[j] == s[j]);
        }
        lemma_sort_by_total_distinct(init);
        lemma_sort_by_total_members(init);
        let u = sort_by_total(init);
        assert forall|k: int| 0 <= k < u.len() implies (#[trigger] u[k]).model != x.model by {
            let m = choose|m: int| 0 <= m < init.len() && u[k] == init[m];
            assert(init[m] == s[m]);
        }
        lemma_insert_by_total_distinct(u, x);
    }
}

/// The per-model rows of a summary add up per model: each row's uncached
/// input, cached input, output and total tokens are the sums (wrapping in
/// `i64`) of those counts over every turn of the readable files that names
/// its model; no model has two rows, and every model a turn names has one.
pub proof fn lemma_per_model_sums(files: Seq<Option<Seq<TurnView>>>, limit: nat)
    ensures
        forall|k: int|
            0 <= k < spec_summarize(files, limit).per_model.len() ==> row_counts(
                #[trigger] spec_summarize(files, limit).per_model[k],
            ) == model_token_sums(all_turns(files), spec_summarize(files, limit).per_model[k].model),
        forall|i: int, j: int|
            0 <= i < j < spec_summarize(files, limit).per_model.len() ==> (#[trigger] spec_summarize(
                files,
                limit,
            ).per_model[i]).model != (#[trigger] spec_summarize(files, limit).per_model[j]).model,
        forall|j: int|
            0 <= j < all_turns(files).len() && (#[trigger] all_turns(files)[j]).model is Some ==> exists|k: int|
                0 <= k < spec_summarize(files, limit).per_model.len() && spec_summarize(files, limit).per_model[k].model
                    == all_turns(files)[j].model->0,
{
    let ts = all_turns(files);
    lemma_add_sessions_rows(files, limit);
    lemma_upsert_all_sums(ts);
    let r = upsert_all(Seq::empty(), ts);
    let sorted = spec_summarize(files, limit).per_model;
    assert(sorted == sort_by_total(r));
    lemma_sort_by_total_members(r);
    assert forall|k: int| 0 <= k < sorted.len() implies row_counts(#[trigger] sorted[k]) == model_token_sums(ts, sorted[k].model) by {
        let j = choose|j: int| 0 <= j < r.len() && sorted[k] == r[j];
    }
    lemma_sort_by_total_distinct(r);
    assert forall|j: int| 0 <= j < ts.len() && (#[trigger] ts[j]).model is Some implies exists|k: int|
        0 <= k < sorted.len() && sorted[k].model == ts[j].model->0 by {
        let q = choose|q: int| 0 <= q < r.len() && r[q].model == ts[j].model->0;
        let k = choose|k: int| 0 <= k < sorted.len() && sorted[k] == r[q];
    }
}


/// Token counts summed (with `i64` wrapping) onto running totals: uncached
/// input, cached input, output and total, turn by turn.
pub open spec fn token_sums_from(start: (i64, i64, i64, i64), ts: Seq<TurnView>) -> (i64, i64, i64, i64)
    decreases ts.len(),
{
    if ts.len() == 0 {
        start
    } else {
        let (a, b, c, d) = token_sums_from(start, ts.drop_last());
        let t = ts.last();
        (
            a.wrapping_add(t.input_tokens),
            b.wrapping_add(t.cached_input_tokens),
            c.wrapping_add(t.output_tokens),
            d.wrapping_add(t.total_tokens),
        )
    }
}

proof fn lemma_token_sums_append(start: (i64, i64, i64, i64), a: Seq<TurnView>, b: Seq<TurnView>)
    ensures
        token_sums_from(token_sums_from(start, a), b) == token_sums_from(start, a + b),
    decreases b.len(),
{
    if b.len() == 0 {
        assert(a + b =~= a);
    } else {
        lemma_token_sums_append(start, a, b.drop_last());
        assert((a + b).drop_last() =~= a + b.drop_last());
        assert((a + b).last() == b.last());
    }
}

proof fn lemma_add_turns_totals(s: SummaryView, ts: Seq<TurnView>, limit: nat)
    ensures
        (spec_add_turns(s, ts, limit).input, spec_add_turns(s, ts, limit).cached, spec_add_turns(s, ts, limit).output,
            spec_add_turns(s, ts, limit).total) == token_sums_from((s.input, s.cached, s.output, s.total), ts),
    decreases ts.len(),
{
    if ts.len() > 0 {
        lemma_add_turns_totals(s, ts.drop_last(), limit);
    }
}

proof fn lemma_add_sessions_totals(files: Seq<Option<Seq<TurnView>>>, limit: nat)
    ensures
        (spec_add_sessions(files, limit).input, spec_add_sessions(files, limit).cached,
            spec_add_sessions(files, limit).output, spec_add_sessions(files, limit).total)
            == token_sums_from((0i64, 0i64, 0i64, 0i64), all_turns(files)),
    decreases files.len(),
{
    if files.len() > 0 {
        lemma_add_sessions_totals(files.drop_last(), limit);
        let s = spec_add_sessions(files.drop_last(), limit);
        let s1 = SummaryView { sessions: s.sessions + 1, ..s };
        match files.last() {
            None => {
                assert(all_turns(files) =~= all_turns(files.drop_last()));
            },
            Some(ts) => {
                let s2 = SummaryView { turns: s1.turns + ts.len(), ..s1 };
                lemma_add_turns_totals(s2, ts, limit);
                lemma_token_sums_append((0i64, 0i64, 0i64, 0i64), all_turns(files.drop_last()), ts);
                assert(all_turns(files) =~= all_turns(files.drop_last()) + ts);
            },
        }
    }
}

/// The totals of a summary are the token counts of every turn of the
/// readable files, summed with `i64` wrapping: uncached input, cached
/// input, output and total tokens.
pub proof fn lemma_summary_totals(files: Seq<Option<Seq<TurnView>>>, limit: nat)
    ensures
        (spec_summarize(files, limit).input, spec_summarize(files, limit).cached, spec_summarize(files, limit).output,
            spec_summarize(files, limit).total) == token_sums_from((0i64, 0i64, 0i64, 0i64), all_turns(files)),
{
    lemma_add_sessions_totals(files, limit);
}

} // verus!
