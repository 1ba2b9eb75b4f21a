//! Frozen OpenAI / Codex text API price book and the per-turn cost rule.
//!
//! Prices are held exactly, as whole thousandths of a US dollar per one
//! million tokens; a turn's cost is then an exact whole number of
//! nano-dollars (10^-9 USD). Models missing from the table have no price and
//! their cost is `None`, never invented.

use vstd::prelude::*;
use rust_decimal::Decimal;
use crate::session::{TokenUsage, spec_input_total};
use crate::text::{trim_start, ascii_lower_chars, ascii_lower_seq, chars_eq_str, chars_of, has_prefix, is_digit, starts_with_str, sub_chars, trim, trim_chars};

verus! {

#[derive(Debug, Clone, Copy, PartialEq, Eq, Structural, Hash)]
pub enum Model {
    Gpt5,
    Gpt5Mini,
    Gpt5Nano,
    Gpt41,
    Gpt41Mini,
    Gpt41Nano,
    Gpt4o,
    Gpt4oMini,
    Gpt4Turbo,
    O1,
    O1Mini,
    O3,
    O3Mini,
    O4Mini,
    CodexMiniLatest,
    /// Anything starting with `codex-` that is not modelled precisely.
    CodexOther,
    /// Any other model without a price.
    Unknown,
}

/// The model that an exact (normalised) model id names.
pub open spec fn spec_model_named(s: Seq<char>) -> Option<Model> {
    if s == "gpt-5"@ {
        Some(Model::Gpt5)
    } else if s == "gpt-5-mini"@ {
        Some(Model::Gpt5Mini)
    } else if s == "gpt-5-nano"@ {
        Some(Model::Gpt5Nano)
    } else if s == "gpt-4-1"@ {
        Some(Model::Gpt41)
    } else if s == "gpt-4-1-mini"@ {
        Some(Model::Gpt41Mini)
    } else if s == "gpt-4-1-nano"@ {
        Some(Model::Gpt41Nano)
    } else if s == "gpt-4o"@ {
        Some(Model::Gpt4o)
    } else if s == "gpt-4o-mini"@ {
        Some(Model::Gpt4oMini)
    } else if s == "gpt-4-turbo"@ || s == "gpt-4-turbo-preview"@ {
        Some(Model::Gpt4Turbo)
    } else if s == "o1"@ {
        Some(Model::O1)
    } else if s == "o1-mini"@ {
        Some(Model::O1Mini)
    } else if s == "o3"@ {
        Some(Model::O3)
    } else if s == "o3-mini"@ {
        Some(Model::O3Mini)
    } else if s == "o4-mini"@ {
        Some(Model::O4Mini)
    } else if s == "codex-mini"@ || s == "codex-mini-latest"@ {
        Some(Model::CodexMiniLatest)
    } else {
        None
    }
}

/// `s` ends with `-YYYY-MM-DD` (four, two and two ASCII digits).
pub open spec fn has_date_suffix(s: Seq<char>) -> bool {
    let n = s.len() as int;
    &&& n >= 11
    &&& s[n - 11] == '-'
    &&& is_digit(s[n - 10]) && is_digit(s[n - 9]) && is_digit(s[n - 8]) && is_digit(s[n - 7])
    &&& s[n - 6] == '-'
    &&& is_digit(s[n - 5]) && is_digit(s[n - 4])
    &&& s[n - 3] == '-'
    &&& is_digit(s[n - 2]) && is_digit(s[n - 1])
}

/// A model id without a trailing `-YYYY-MM-DD` date.
pub open spec fn spec_strip_date_suffix(s: Seq<char>) -> Seq<char> {
    if has_date_suffix(s) {
        s.take(s.len() - 11)
    } else {
        s
    }
}

/// `s` with every `.` replaced by `-`.
pub open spec fn dots_to_dashes(s: Seq<char>) -> Seq<char> {
    s.map_values(|c: char| if c == '.' { '-' } else { c })
}

/// How a raw model id is classified: trimmed and lower-cased; an empty id
/// is `Unknown`; otherwise the date suffix is dropped and the stem, then the
/// stem with dots turned into dashes, is looked up; failing that, a stem that
/// starts with `codex-` is `CodexOther` and anything else `Unknown`.
pub open spec fn spec_classify(raw: Seq<char>) -> Model {
    let n = ascii_lower_seq(trim(raw));
    if n.len() == 0 {
        Model::Unknown
    } else {
        let stem = spec_strip_date_suffix(n);
        match spec_model_named(stem) {
            Some(m) => m,
            None => match spec_model_named(dots_to_dashes(stem)) {
                Some(m) => m,
                None => if has_prefix(stem, "codex-"@) {
                    Model::CodexOther
                } else {
                    Model::Unknown
                },
            },
        }
    }
}

/// Classification ignores case and surrounding white space: an id
/// classifies as its trimmed, lower-cased form does; and only an id whose
/// normalised form starts with `codex-` is `CodexOther`.
pub proof fn lemma_classify_normalised(raw: Seq<char>)
    ensures
        spec_classify(ascii_lower_seq(trim(raw))) == spec_classify(raw),
        spec_classify(raw) == Model::CodexOther ==> has_prefix(ascii_lower_seq(trim(raw)), "codex-"@),
{
    crate::text::lemma_trim_lower_fixed(raw);
    let n = ascii_lower_seq(trim(raw));
    if spec_classify(raw) == Model::CodexOther {
        let stem = spec_strip_date_suffix(n);
        assert(has_prefix(stem, "codex-"@));
        let k = "codex-"@.len() as int;
        assert(n.take(k) =~= stem.take(k));
    }
}

fn model_named(s: &Vec<char>) -> (r: Option<Model>)
    ensures
        r == spec_model_named(s@),
{
    if chars_eq_str(s, "gpt-5") {
        Some(Model::Gpt5)
    } else if chars_eq_str(s, "gpt-5-mini") {
        Some(Model::Gpt5Mini)
    } else if chars_eq_str(s, "gpt-5-nano") {
        Some(Model::Gpt5Nano)
    } else if chars_eq_str(s, "gpt-4-1") {
        Some(Model::Gpt41)
    } else if chars_eq_str(s, "gpt-4-1-mini") {
        Some(Model::Gpt41Mini)
    } else if chars_eq_str(s, "gpt-4-1-nano") {
        Some(Model::Gpt41Nano)
    } else if chars_eq_str(s, "gpt-4o") {
        Some(Model::Gpt4o)
    } else if chars_eq_str(s, "gpt-4o-mini") {
        Some(Model::Gpt4oMini)
    } else if chars_eq_str(s, "gpt-4-turbo") || chars_eq_str(s, "gpt-4-turbo-preview") {
        Some(Model::Gpt4Turbo)
    } else if chars_eq_str(s, "o1") {
        Some(Model::O1)
    } else if chars_eq_str(s, "o1-mini") {
        Some(Model::O1Mini)
    } else if chars_eq_str(s, "o3") {
        Some(Model::O3)
    } else if chars_eq_str(s, "o3-mini") {
        Some(Model::O3Mini)
    } else if chars_eq_str(s, "o4-mini") {
        Some(Model::O4Mini)
    } else if chars_eq_str(s, "codex-mini") || chars_eq_str(s, "codex-mini-latest") {
        Some(Model::CodexMiniLatest)
    } else {
        None
    }
}

fn is_digit_exec(c: char) -> (r: bool)
    ensures
        r == is_digit(c),
{
    '0' <= c && c <= '9'
}

/// Drops a trailing `-YYYY-MM-DD` date from a model id.
pub fn strip_date_suffix(s: &Vec<char>) -> (r: Vec<char>)
    ensures
        r@ == spec_strip_date_suffix(s@),
{
    let n = s.len();
    if n >= 11 && s[n - 11] == '-' && is_digit_exec(s[n - 10]) && is_digit_exec(s[n - 9])
        && is_digit_exec(s[n - 8]) && is_digit_exec(s[n - 7]) && s[n - 6] == '-'
        && is_digit_exec(s[n - 5]) && is_digit_exec(s[n - 4]) && s[n - 3] == '-'
        && is_digit_exec(s[n - 2]) && is_digit_exec(s[n - 1]) {
        sub_chars(s, 0, n - 11)
    } else {
        sub_chars(s, 0, n)
    }
}

fn dots_to_dashes_exec(s: &Vec<char>) -> (r: Vec<char>)
    ensures
        r@ == dots_to_dashes(s@),
{
    let mut out: Vec<char> = Vec::new();
    let mut i: usize = 0;
    while i < s.len()
        invariant
            i <= s.len(),
            out@ == dots_to_dashes(s@.take(i as int)),
        decreases s.len() - i,
    {
        let c = s[i];
        out.push(if c == '.' { '-' } else { c });
        i = i + 1;
        assert(out@ =~= dots_to_dashes(s@.take(i as int)));
    }
    assert(s@.take(s.len() as int) =~= s@);
    out
}

impl Model {
    /// Maps a raw model id from a session log onto the price book.
    pub fn classify(raw: &str) -> (r: Model)
        ensures
            r == spec_classify(raw@),
    {
        let chars = chars_of(raw);
        let trimmed = trim_chars(&chars);
        let n = ascii_lower_chars(&trimmed);
        if n.len() == 0 {
            return Model::Unknown;
        }
        let stem = strip_date_suffix(&n);
        if let Some(m) = model_named(&stem) {
            return m;
        }
        let dotted = dots_to_dashes_exec(&stem);
        if let Some(m) = model_named(&dotted) {
            return m;
        }
        if starts_with_str(&stem, "codex-") {
            Model::CodexOther
        } else {
            Model::Unknown
        }
    }
}

/// The variant name of a model, as its `Debug` form prints it.
pub open spec fn spec_model_name(m: Model) -> Seq<char> {
    match m {
        Model::Gpt5 => "Gpt5"@,
        Model::Gpt5Mini => "Gpt5Mini"@,
        Model::Gpt5Nano => "Gpt5Nano"@,
        Model::Gpt41 => "Gpt41"@,
        Model::Gpt41Mini => "Gpt41Mini"@,
        Model::Gpt41Nano => "Gpt41Nano"@,
        Model::Gpt4o => "Gpt4o"@,
        Model::Gpt4oMini => "Gpt4oMini"@,
        Model::Gpt4Turbo => "Gpt4Turbo"@,
        Model::O1 => "O1"@,
        Model::O1Mini => "O1Mini"@,
        Model::O3 => "O3"@,
        Model::O3Mini => "O3Mini"@,
        Model::O4Mini => "O4Mini"@,
        Model::CodexMiniLatest => "CodexMiniLatest"@,
        Model::CodexOther => "CodexOther"@,
        Model::Unknown => "Unknown"@,
    }
}

impl Model {
    /// The variant name of the model (its `Debug` form).
    pub fn name(&self) -> (r: &'static str)
        ensures
            r@ == spec_model_name(*self),
    {
        match self {
            Model::Gpt5 => "Gpt5",
            Model::Gpt5Mini => "Gpt5Mini",
            Model::Gpt5Nano => "Gpt5Nano",
            Model::Gpt41 => "Gpt41",
            Model::Gpt41Mini => "Gpt41Mini",
            Model::Gpt41Nano => "Gpt41Nano",
            Model::Gpt4o => "Gpt4o",
            Model::Gpt4oMini => "Gpt4oMini",
            Model::Gpt4Turbo => "Gpt4Turbo",
            Model::O1 => "O1",
            Model::O1Mini => "O1Mini",
            Model::O3 => "O3",
            Model::O3Mini => "O3Mini",
            Model::O4Mini => "O4Mini",
            Model::CodexMiniLatest => "CodexMiniLatest",
            Model::CodexOther => "CodexOther",
            Model::Unknown => "Unknown",
        }
    }
}

/// Prices of one model, in thousandths of a US dollar per one million tokens.
#[derive(Debug, Clone, Copy, PartialEq, Eq, Structural)]
pub struct Price {
    /// Per 1M uncached input tokens.
    pub input_per_million: u32,
    /// Per 1M cached input tokens.
    pub cached_input_per_million: u32,
    /// Per 1M output tokens.
    pub output_per_million: u32,
    /// Long-context input price.
    pub long_context_input_per_million: u32,
    /// Long-context cached input price.
    pub long_context_cached_per_million: u32,
    /// Long-context output price.
    pub long_context_output_per_million: u32,
}

/// Prompt size (input tokens of a turn) at which the long-context tier applies.
pub const LONG_CONTEXT_THRESHOLD: i64 = 200_000;

/// Identifier of this snapshot of the price book.
pub const PRICING_VERSION: &'static str = "oai-text-2026-08-15";

pub open spec fn mk_price(a: u32, b: u32, c: u32, d: u32, e: u32, f: u32) -> Price {
    Price {
        input_per_million: a,
        cached_input_per_million: b,
        output_per_million: c,
        long_context_input_per_million: d,
        long_context_cached_per_million: e,
        long_context_output_per_million: f,
    }
}

/// The price book, in thousandths of a dollar per one million tokens.
pub open spec fn spec_price_for(m: Model) -> Option<Price> {
    match m {
        Model::Gpt5 => Some(mk_price(1250, 125, 10000, 2500, 250, 15000)),
        Model::Gpt5Mini => Some(mk_price(250, 25, 2000, 450, 45, 3600)),
        Model::Gpt5Nano => Some(mk_price(50, 5, 400, 100, 10, 720)),
        Model::Gpt41 => Some(mk_price(2500, 500, 10000, 5000, 1000, 15000)),
        Model::Gpt41Mini => Some(mk_price(400, 100, 1600, 800, 200, 3200)),
        Model::Gpt41Nano => Some(mk_price(100, 25, 400, 200, 50, 800)),
        Model::Gpt4o => Some(mk_price(2500, 1250, 10000, 2500, 1250, 10000)),
        Model::Gpt4oMini => Some(mk_price(150, 75, 600, 150, 75, 600)),
        Model::Gpt4Turbo => Some(mk_price(10000, 10000, 30000, 10000, 10000, 30000)),
        Model::O1 => Some(mk_price(15000, 7500, 60000, 30000, 15000, 120000)),
        Model::O1Mini => Some(mk_price(3000, 1500, 12000, 6000, 3000, 24000)),
        Model::O3 => Some(mk_price(10000, 2500, 40000, 20000, 5000, 80000)),
        Model::O3Mini => Some(mk_price(1100, 550, 4400, 2200, 1100, 8800)),
        Model::O4Mini => Some(mk_price(1100, 275, 4400, 2200, 550, 8800)),
        Model::CodexMiniLatest => Some(mk_price(400, 100, 1600, 800, 200, 3200)),
        Model::CodexOther => None,
        Model::Unknown => None,
    }
}

fn price(a: u32, b: u32, c: u32, d: u32, e: u32, f: u32) -> (r: Price)
    ensures
        r == mk_price(a, b, c, d, e, f),
{
    Price {
        input_per_million: a,
        cached_input_per_million: b,
        output_per_million: c,
        long_context_input_per_million: d,
        long_context_cached_per_million: e,
        long_context_output_per_million: f,
    }
}

/// The price of a model, if the price book has one.
pub fn price_for(model: Model) -> (r: Option<Price>)
    ensures
        r == spec_price_for(model),
{
    match model {
        Model::Gpt5 => Some(price(1250, 125, 10000, 2500, 250, 15000)),
        Model::Gpt5Mini => Some(price(250, 25, 2000, 450, 45, 3600)),
        Model::Gpt5Nano => Some(price(50, 5, 400, 100, 10, 720)),
        Model::Gpt41 => Some(price(2500, 500, 10000, 5000, 1000, 15000)),
        Model::Gpt41Mini => Some(price(400, 100, 1600, 800, 200, 3200)),
        Model::Gpt41Nano => Some(price(100, 25, 400, 200, 50, 800)),
        Model::Gpt4o => Some(price(2500, 1250, 10000, 2500, 1250, 10000)),
        Model::Gpt4oMini => Some(price(150, 75, 600, 150, 75, 600)),
        Model::Gpt4Turbo => Some(price(10000, 10000, 30000, 10000, 10000, 30000)),
        Model::O1 => Some(price(15000, 7500, 60000, 30000, 15000, 120000)),
        Model::O1Mini => Some(price(3000, 1500, 12000, 6000, 3000, 24000)),
        Model::O3 => Some(price(10000, 2500, 40000, 20000, 5000, 80000)),
        Model::O3Mini => Some(price(1100, 550, 4400, 2200, 1100, 8800)),
        Model::O4Mini => Some(price(1100, 275, 4400, 2200, 550, 8800)),
        Model::CodexMiniLatest => Some(price(400, 100, 1600, 800, 200, 3200)),
        Model::CodexOther => None,
        Model::Unknown => None,
    }
}

/// A token count as billed: negative counts bill as zero.
pub open spec fn billed(x: i64) -> nat {
    if x < 0 { 0 } else { x as nat }
}

/// Whether a turn's prompt reaches the long-context tier.
pub open spec fn is_long_context(u: TokenUsage) -> bool {
    spec_input_total(u) >= LONG_CONTEXT_THRESHOLD
}

/// Cost of a turn in nano-dollars: each billed token count times its
/// per-million price (in thousandths of a dollar), from the long-context
/// column when the prompt reaches the threshold.
pub open spec fn spec_cost_nanos(p: Price, u: TokenUsage) -> nat {
    if is_long_context(u) {
        billed(u.input_tokens) * (p.long_context_input_per_million as nat)
            + billed(u.cached_input_tokens) * (p.long_context_cached_per_million as nat)
            + billed(u.output_tokens) * (p.long_context_output_per_million as nat)
    } else {
        billed(u.input_tokens) * (p.input_per_million as nat)
            + billed(u.cached_input_tokens) * (p.cached_input_per_million as nat)
            + billed(u.output_tokens) * (p.output_per_million as nat)
    }
}

/// Cost of a turn in nano-dollars, `None` for a model without a price.
pub open spec fn spec_turn_cost_nanos(m: Model, u: TokenUsage) -> Option<nat> {
    match spec_price_for(m) {
        Some(p) => Some(spec_cost_nanos(p, u)),
        None => None,
    }
}

proof fn lemma_term_bound(t: nat, p: u32)
    requires
        t < 0x8000_0000_0000_0000,
    ensures
        t * p < 0x8000_0000_0000_0000_0000_0000,
        t * p >= 0,
{
    assert(t * p <= 0x8000_0000_0000_0000 * 0xffff_ffff) by (nonlinear_arith)
        requires
            t < 0x8000_0000_0000_0000,
            p <= 0xffff_ffff,
    ;
}

fn billed_exec(x: i64) -> (r: u128)
    ensures
        r == billed(x),
        r < 0x8000_0000_0000_0000,
{
    if x < 0 {
        0
    } else {
        x as u128
    }
}

/// Exact cost of a turn under a price, in nano-dollars.
pub fn cost_nanos(price: Price, usage: &TokenUsage) -> (r: u128)
    ensures
        r == spec_cost_nanos(price, *usage),
{
    let (in_p, cached_p, out_p) = if usage.input_total() >= LONG_CONTEXT_THRESHOLD {
        (
            price.long_context_input_per_million,
            price.long_context_cached_per_million,
            price.long_context_output_per_million,
        )
    } else {
        (price.input_per_million, price.cached_input_per_million, price.output_per_million)
    };
    let a = billed_exec(usage.input_tokens);
    let b = billed_exec(usage.cached_input_tokens);
    let c = billed_exec(usage.output_tokens);
    proof {
        lemma_term_bound(a as nat, in_p);
        lemma_term_bound(b as nat, cached_p);
        lemma_term_bound(c as nat, out_p);
    }
    a * (in_p as u128) + b * (cached_p as u128) + c * (out_p as u128)
}

/// Exact cost of a turn in nano-dollars; `None` for a model without a price.
pub fn turn_cost_nanos(model: Model, usage: &TokenUsage) -> (r: Option<u128>)
    ensures
        r matches Some(n) ==> spec_turn_cost_nanos(model, *usage) == Some(n as nat),
        r is None <==> spec_turn_cost_nanos(model, *usage) is None,
{
    match price_for(model) {
        Some(p) => Some(cost_nanos(p, usage)),
        None => None,
    }
}

/// Largest mantissa a `Decimal` can hold (2^96 - 1).
pub open spec fn decimal_mantissa_max() -> int {
    0xffff_ffff_ffff_ffff_ffff_ffff
}

#[verifier::external_type_specification]
#[verifier::external_body]
pub struct ExDecimal(Decimal);

/// The `Decimal` with mantissa `num` and `scale` decimal places, as
/// `rust_decimal::Decimal::from_i128_with_scale` builds it.
pub uninterp spec fn decimal_scaled(num: int, scale: int) -> Decimal;

/// Calls `Decimal::from_i128_with_scale(n, 9)`: the exact value `n * 10^-9`.
/// That function panics when the mantissa exceeds 96 bits, which `requires`
/// rules out.
#[verifier::external_body]
fn decimal_from_nanos(n: u128) -> (r: Decimal)
    requires
        n <= decimal_mantissa_max(),
    ensures
        r == decimal_scaled(n as int, 9),
{
    Decimal::from_i128_with_scale(n as i128, 9)
}

/// A nano-dollar amount as a `Decimal` number of dollars.
pub fn usd_from_nanos(n: u128) -> (r: Decimal)
    requires
        n <= decimal_mantissa_max(),
    ensures
        r == decimal_scaled(n as int, 9),
{
    decimal_from_nanos(n)
}

proof fn lemma_table_cost_fits(p: Price, u: TokenUsage)
    requires
        p.input_per_million <= 120000,
        p.cached_input_per_million <= 120000,
        p.output_per_million <= 120000,
        p.long_context_input_per_million <= 120000,
        p.long_context_cached_per_million <= 120000,
        p.long_context_output_per_million <= 120000,
    ensures
        spec_cost_nanos(p, u) <= decimal_mantissa_max(),
{
    let a = billed(u.input_tokens);
    let b = billed(u.cached_input_tokens);
    let c = billed(u.output_tokens);
    assert(a < 0x8000_0000_0000_0000 && b < 0x8000_0000_0000_0000 && c < 0x8000_0000_0000_0000);
    lemma_small_term(a, p.input_per_million);
    lemma_small_term(b, p.cached_input_per_million);
    lemma_small_term(c, p.output_per_million);
    lemma_small_term(a, p.long_context_input_per_million);
    lemma_small_term(b, p.long_context_cached_per_million);
    lemma_small_term(c, p.long_context_output_per_million);
}

proof fn lemma_small_term(t: nat, q: u32)
    requires
        t < 0x8000_0000_0000_0000,
        q <= 120000,
    ensures
        t * (q as nat) <= 0x8000_0000_0000_0000 * 120000,
{
    assert(t * (q as nat) <= 0x8000_0000_0000_0000 * 120000) by (nonlinear_arith)
        requires
            t < 0x8000_0000_0000_0000,
            q <= 120000,
    ;
}

/// USD cost of a single turn given its token usage and model; `None` for a
/// model without a price.
pub fn cost_for_turn(model: Model, usage: &TokenUsage) -> (r: Option<Decimal>)
    ensures
        r is None <==> spec_price_for(model) is None,
        r matches Some(d) ==> d == decimal_scaled(spec_turn_cost_nanos(model, *usage)->0 as int, 9),
{
    match price_for(model) {
        Some(p) => {
            let n = cost_nanos(p, usage);
            proof {
                lemma_table_cost_fits(p, *usage);
            }
            Some(decimal_from_nanos(n))
        },
        None => None,
    }
}


/// An exact id of the price book (lower-case letters, digits and dashes,
/// no date) classifies as the model it names.
proof fn lemma_classify_exact_id(s: Seq<char>, m: Model)
    requires
        s.len() > 0,
        forall|i: int| 0 <= i < s.len() ==> #[trigger] s[i] == '-' || ('0' <= s[i] && s[i] <= '9') || ('a' <= s[i] && s[i] <= 'z'),
        !has_date_suffix(s),
        spec_model_named(s) == Some(m),
    ensures
        spec_classify(s) == m,
{
    assert(!crate::text::is_white_space(s[0]));
    assert(trim_start(s) == s);
    assert(crate::text::trim_end(s) == s) by {
        assert(!crate::text::is_white_space(s[s.len() - 1]));
    }
    assert(ascii_lower_seq(s) =~= s);
}

/// The ids of the price book: each classifies as its own model (the dated
/// and dotted spellings of an id are reduced to these first).
pub proof fn lemma_price_book_ids()
    ensures
        spec_classify("gpt-5"@) == Model::Gpt5,
        spec_classify("gpt-5-mini"@) == Model::Gpt5Mini,
        spec_classify("gpt-5-nano"@) == Model::Gpt5Nano,
        spec_classify("gpt-4-1"@) == Model::Gpt41,
        spec_classify("gpt-4-1-mini"@) == Model::Gpt41Mini,
        spec_classify("gpt-4-1-nano"@) == Model::Gpt41Nano,
        spec_classify("gpt-4o"@) == Model::Gpt4o,
        spec_classify("gpt-4o-mini"@) == Model::Gpt4oMini,
        spec_classify("gpt-4-turbo"@) == Model::Gpt4Turbo,
        spec_classify("gpt-4-turbo-preview"@) == Model::Gpt4Turbo,
        spec_classify("o1"@) == Model::O1,
        spec_classify("o1-mini"@) == Model::O1Mini,
        spec_classify("o3"@) == Model::O3,
        spec_classify("o3-mini"@) == Model::O3Mini,
        spec_classify("o4-mini"@) == Model::O4Mini,
        spec_classify("codex-mini"@) == Model::CodexMiniLatest,
        spec_classify("codex-mini-latest"@) == Model::CodexMiniLatest,
{
    assert(spec_classify("gpt-5"@) == Model::Gpt5) by {
        reveal_strlit("gpt-5");
        reveal_strlit("gpt-5-mini");
        reveal_strlit("gpt-5-nano");
        reveal_strlit("gpt-4-1");
        reveal_strlit("gpt-4-1-mini");
        reveal_strlit("gpt-4-1-nano");
        reveal_strlit("gpt-4o");
        reveal_strlit("gpt-4o-mini");
        reveal_strlit("gpt-4-turbo");
        reveal_strlit("gpt-4-turbo-preview");
        reveal_strlit("o1");
        reveal_strlit("o1-mini");
        reveal_strlit("o3");
        reveal_strlit("o3-mini");
        reveal_strlit("o4-mini");
        reveal_strlit("codex-mini");
        reveal_strlit("codex-mini-latest");
        lemma_classify_exact_id("gpt-5"@, Model::Gpt5);
    }
    assert(spec_classify("gpt-5-mini"@) == Model::Gpt5Mini) by {
        reveal_strlit("gpt-5");
        reveal_strlit("gpt-5-mini");
        reveal_strlit("gpt-5-nano");
        reveal_strlit("gpt-4-1");
        reveal_strlit("gpt-4-1-mini");
        reveal_strlit("gpt-4-1-nano");
        reveal_strlit("gpt-4o");
        reveal_strlit("gpt-4o-mini");
        reveal_strlit("gpt-4-turbo");
        reveal_strlit("gpt-4-turbo-preview");
        reveal_strlit("o1");
        reveal_strlit("o1-mini");
        reveal_strlit("o3");
        reveal_strlit("o3-mini");
        reveal_strlit("o4-mini");
        reveal_strlit("codex-mini");
        reveal_strlit("codex-mini-latest");
        assert("gpt-5-mini"@[6] != "gpt-5-nano"@[6]);
        assert("gpt-5-mini"@[0] != "codex-mini"@[0]);
        lemma_classify_exact_id("gpt-5-mini"@, Model::Gpt5Mini);
    }
    assert(spec_classify("gpt-5-nano"@) == Model::Gpt5Nano) by {
        reveal_strlit("gpt-5");
        reveal_strlit("gpt-5-mini");
        reveal_strlit("gpt-5-nano");
        reveal_strlit("gpt-4-1");
        reveal_strlit("gpt-4-1-mini");
        reveal_strlit("gpt-4-1-nano");
        reveal_strlit("gpt-4o");
        reveal_strlit("gpt-4o-mini");
        reveal_strlit("gpt-4-turbo");
        reveal_strlit("gpt-4-turbo-preview");
        reveal_strlit("o1");
        reveal_strlit("o1-mini");
        reveal_strlit("o3");
        reveal_strlit("o3-mini");
        reveal_strlit("o4-mini");
        reveal_strlit("codex-mini");
        reveal_strlit("codex-mini-latest");
        assert("gpt-5-nano"@[6] != "gpt-5-mini"@[6]);
        assert("gpt-5-nano"@[0] != "codex-mini"@[0]);
        lemma_classify_exact_id("gpt-5-nano"@, Model::Gpt5Nano);
    }
    assert(spec_classify("gpt-4-1"@) == Model::Gpt41) by {
        reveal_strlit("gpt-5");
        reveal_strlit("gpt-5-mini");
        reveal_strlit("gpt-5-nano");
        reveal_strlit("gpt-4-1");
        reveal_strlit("gpt-4-1-mini");
        reveal_strlit("gpt-4-1-nano");
        reveal_strlit("gpt-4o");
        reveal_strlit("gpt-4o-mini");
        reveal_strlit("gpt-4-turbo");
        reveal_strlit("gpt-4-turbo-preview");
        reveal_strlit("o1");
        reveal_strlit("o1-mini");
        reveal_strlit("o3");
        reveal_strlit("o3-mini");
        reveal_strlit("o4-mini");
        reveal_strlit("codex-mini");
        reveal_strlit("codex-mini-latest");
        assert("gpt-4-1"@[0] != "o1-mini"@[0]);
        assert("gpt-4-1"@[0] != "o3-mini"@[0]);
        assert("gpt-4-1"@[0] != "o4-mini"@[0]);
        lemma_classify_exact_id("gpt-4-1"@, Model::Gpt41);
    }
    assert(spec_classify("gpt-4-1-mini"@) == Model::Gpt41Mini) by {
        reveal_strlit("gpt-5");
        reveal_strlit("gpt-5-mini");
        reveal_strlit("gpt-5-nano");
        reveal_strlit("gpt-4-1");
        reveal_strlit("gpt-4-1-mini");
        reveal_strlit("gpt-4-1-nano");
        reveal_strlit("gpt-4o");
        reveal_strlit("gpt-4o-mini");
        reveal_strlit("gpt-4-turbo");
        reveal_strlit("gpt-4-turbo-preview");
        reveal_strlit("o1");
        reveal_strlit("o1-mini");
        reveal_strlit("o3");
        reveal_strlit("o3-mini");
        reveal_strlit("o4-mini");
        reveal_strlit("codex-mini");
        reveal_strlit("codex-mini-latest");
        assert("gpt-4-1-mini"@[8] != "gpt-4-1-nano"@[8]);
        lemma_classify_exact_id("gpt-4-1-mini"@, Model::Gpt41Mini);
    }
    assert(spec_classify("gpt-4-1-nano"@) == Model::Gpt41Nano) by {
        reveal_strlit("gpt-5");
        reveal_strlit("gpt-5-mini");
        reveal_strlit("gpt-5-nano");
        reveal_strlit("gpt-4-1");
        reveal_strlit("gpt-4-1-mini");
        reveal_strlit("gpt-4-1-nano");
        reveal_strlit("gpt-4o");
        reveal_strlit("gpt-4o-mini");
        reveal_strlit("gpt-4-turbo");
        reveal_strlit("gpt-4-turbo-preview");
        reveal_strlit("o1");
        reveal_strlit("o1-mini");
        reveal_strlit("o3");
        reveal_strlit("o3-mini");
        reveal_strlit("o4-mini");
        reveal_strlit("codex-mini");
        reveal_strlit("codex-mini-latest");
        assert("gpt-4-1-nano"@[8] != "gpt-4-1-mini"@[8]);
        lemma_classify_exact_id("gpt-4-1-nano"@, Model::Gpt41Nano);
    }
    assert(spec_classify("gpt-4o"@) == Model::Gpt4o) by {
        reveal_strlit("gpt-5");
        reveal_strlit("gpt-5-mini");
        reveal_strlit("gpt-5-nano");
        reveal_strlit("gpt-4-1");
        reveal_strlit("gpt-4-1-mini");
        reveal_strlit("gpt-4-1-nano");
        reveal_strlit("gpt-4o");
        reveal_strlit("gpt-4o-mini");
        reveal_strlit("gpt-4-turbo");
        reveal_strlit("gpt-4-turbo-preview");
        reveal_strlit("o1");
        reveal_strlit("o1-mini");
        reveal_strlit("o3");
        reveal_strlit("o3-mini");
        reveal_strlit("o4-mini");
        reveal_strlit("codex-mini");
        reveal_strlit("codex-mini-latest");
        lemma_classify_exact_id("gpt-4o"@, Model::Gpt4o);
    }
    assert(spec_classify("gpt-4o-mini"@) == Model::Gpt4oMini) by {
        reveal_strlit("gpt-5");
        reveal_strlit("gpt-5-mini");
        reveal_strlit("gpt-5-nano");
        reveal_strlit("gpt-4-1");
        reveal_strlit("gpt-4-1-mini");
        reveal_strlit("gpt-4-1-nano");
        reveal_strlit("gpt-4o");
        reveal_strlit("gpt-4o-mini");
        reveal_strlit("gpt-4-turbo");
        reveal_strlit("gpt-4-turbo-preview");
        reveal_strlit("o1");
        reveal_strlit("o1-mini");
        reveal_strlit("o3");
        reveal_strlit("o3-mini");
        reveal_strlit("o4-mini");
        reveal_strlit("codex-mini");
        reveal_strlit("codex-mini-latest");
        assert("gpt-4o-mini"@[5] != "gpt-4-turbo"@[5]);
        lemma_classify_exact_id("gpt-4o-mini"@, Model::Gpt4oMini);
    }
    assert(spec_classify("gpt-4-turbo"@) == Model::Gpt4Turbo) by {
        reveal_strlit("gpt-5");
        reveal_strlit("gpt-5-mini");
        reveal_strlit("gpt-5-nano");
        reveal_strlit("gpt-4-1");
        reveal_strlit("gpt-4-1-mini");
        reveal_strlit("gpt-4-1-nano");
        reveal_strlit("gpt-4o");
        reveal_strlit("gpt-4o-mini");
        reveal_strlit("gpt-4-turbo");
        reveal_strlit("gpt-4-turbo-preview");
        reveal_strlit("o1");
        reveal_strlit("o1-mini");
        reveal_strlit("o3");
        reveal_strlit("o3-mini");
        reveal_strlit("o4-mini");
        reveal_strlit("codex-mini");
        reveal_strlit("codex-mini-latest");
        assert("gpt-4-turbo"@[5] != "gpt-4o-mini"@[5]);
        lemma_classify_exact_id("gpt-4-turbo"@, Model::Gpt4Turbo);
    }
    assert(spec_classify("gpt-4-turbo-preview"@) == Model::Gpt4Turbo) by {
        reveal_strlit("gpt-5");
        reveal_strlit("gpt-5-mini");
        reveal_strlit("gpt-5-nano");
        reveal_strlit("gpt-4-1");
        reveal_strlit("gpt-4-1-mini");
        reveal_strlit("gpt-4-1-nano");
        reveal_strlit("gpt-4o");
        reveal_strlit("gpt-4o-mini");
        reveal_strlit("gpt-4-turbo");
        reveal_strlit("gpt-4-turbo-preview");
        reveal_strlit("o1");
        reveal_strlit("o1-mini");
        reveal_strlit("o3");
        reveal_strlit("o3-mini");
        reveal_strlit("o4-mini");
        reveal_strlit("codex-mini");
        reveal_strlit("codex-mini-latest");
        lemma_classify_exact_id("gpt-4-turbo-preview"@, Model::Gpt4Turbo);
    }
    assert(spec_classify("o1"@) == Model::O1) by {
        reveal_strlit("gpt-5");
        reveal_strlit("gpt-5-mini");
        reveal_strlit("gpt-5-nano");
        reveal_strlit("gpt-4-1");
        reveal_strlit("gpt-4-1-mini");
        reveal_strlit("gpt-4-1-nano");
        reveal_strlit("gpt-4o");
        reveal_strlit("gpt-4o-mini");
        reveal_strlit("gpt-4-turbo");
        reveal_strlit("gpt-4-turbo-preview");
        reveal_strlit("o1");
        reveal_strlit("o1-mini");
        reveal_strlit("o3");
        reveal_strlit("o3-mini");
        reveal_strlit("o4-mini");
        reveal_strlit("codex-mini");
        reveal_strlit("codex-mini-latest");
        assert("o1"@[1] != "o3"@[1]);
        lemma_classify_exact_id("o1"@, Model::O1);
    }
    assert(spec_classify("o1-mini"@) == Model::O1Mini) by {
        reveal_strlit("gpt-5");
        reveal_strlit("gpt-5-mini");
        reveal_strlit("gpt-5-nano");
        reveal_strlit("gpt-4-1");
        reveal_strlit("gpt-4-1-mini");
        reveal_strlit("gpt-4-1-nano");
        reveal_strlit("gpt-4o");
        reveal_strlit("gpt-4o-mini");
        reveal_strlit("gpt-4-turbo");
        reveal_strlit("gpt-4-turbo-preview");
        reveal_strlit("o1");
        reveal_strlit("o1-mini");
        reveal_strlit("o3");
        reveal_strlit("o3-mini");
        reveal_strlit("o4-mini");
        reveal_strlit("codex-mini");
        reveal_strlit("codex-mini-latest");
        assert("o1-mini"@[0] != "gpt-4-1"@[0]);
        assert("o1-mini"@[1] != "o3-mini"@[1]);
        assert("o1-mini"@[1] != "o4-mini"@[1]);
        lemma_classify_exact_id("o1-mini"@, Model::O1Mini);
    }
    assert(spec_classify("o3"@) == Model::O3) by {
        reveal_strlit("gpt-5");
        reveal_strlit("gpt-5-mini");
        reveal_strlit("gpt-5-nano");
        reveal_strlit("gpt-4-1");
        reveal_strlit("gpt-4-1-mini");
        reveal_strlit("gpt-4-1-nano");
        reveal_strlit("gpt-4o");
        reveal_strlit("gpt-4o-mini");
        reveal_strlit("gpt-4-turbo");
        reveal_strlit("gpt-4-turbo-preview");
        reveal_strlit("o1");
        reveal_strlit("o1-mini");
        reveal_strlit("o3");
        reveal_strlit("o3-mini");
        reveal_strlit("o4-mini");
        reveal_strlit("codex-mini");
        reveal_strlit("codex-mini-latest");
        assert("o3"@[1] != "o1"@[1]);
        lemma_classify_exact_id("o3"@, Model::O3);
    }
    assert(spec_classify("o3-mini"@) == Model::O3Mini) by {
        reveal_strlit("gpt-5");
        reveal_strlit("gpt-5-mini");
        reveal_strlit("gpt-5-nano");
        reveal_strlit("gpt-4-1");
        reveal_strlit("gpt-4-1-mini");
        reveal_strlit("gpt-4-1-nano");
        reveal_strlit("gpt-4o");
        reveal_strlit("gpt-4o-mini");
        reveal_strlit("gpt-4-turbo");
        reveal_strlit("gpt-4-turbo-preview");
        reveal_strlit("o1");
        reveal_strlit("o1-mini");
        reveal_strlit("o3");
        reveal_strlit("o3-mini");
        reveal_strlit("o4-mini");
        reveal_strlit("codex-mini");
        reveal_strlit("codex-mini-latest");
        assert("o3-mini"@[0] != "gpt-4-1"@[0]);
        assert("o3-mini"@[1] != "o1-mini"@[1]);
        assert("o3-mini"@[1] != "o4-mini"@[1]);
        lemma_classify_exact_id("o3-mini"@, Model::O3Mini);
    }
    assert(spec_classify("o4-mini"@) == Model::O4Mini) by {
        reveal_strlit("gpt-5");
        reveal_strlit("gpt-5-mini");
        reveal_strlit("gpt-5-nano");
        reveal_strlit("gpt-4-1");
        reveal_strlit("gpt-4-1-mini");
        reveal_strlit("gpt-4-1-nano");
        reveal_strlit("gpt-4o");
        reveal_strlit("gpt-4o-mini");
        reveal_strlit("gpt-4-turbo");
        reveal_strlit("gpt-4-turbo-preview");
        reveal_strlit("o1");
        reveal_strlit("o1-mini");
        reveal_strlit("o3");
        reveal_strlit("o3-mini");
        reveal_strlit("o4-mini");
        reveal_strlit("codex-mini");
        reveal_strlit("codex-mini-latest");
        assert("o4-mini"@[0] != "gpt-4-1"@[0]);
        assert("o4-mini"@[1] != "o1-mini"@[1]);
        assert("o4-mini"@[1] != "o3-mini"@[1]);
        lemma_classify_exact_id("o4-mini"@, Model::O4Mini);
    }
    assert(spec_classify("codex-mini"@) == Model::CodexMiniLatest) by {
        reveal_strlit("gpt-5");
        reveal_strlit("gpt-5-mini");
        reveal_strlit("gpt-5-nano");
        reveal_strlit("gpt-4-1");
        reveal_strlit("gpt-4-1-mini");
        reveal_strlit("gpt-4-1-nano");
        reveal_strlit("gpt-4o");
        reveal_strlit("gpt-4o-mini");
        reveal_strlit("gpt-4-turbo");
        reveal_strlit("gpt-4-turbo-preview");
        reveal_strlit("o1");
        reveal_strlit("o1-mini");
        reveal_strlit("o3");
        reveal_strlit("o3-mini");
        reveal_strlit("o4-mini");
        reveal_strlit("codex-mini");
        reveal_strlit("codex-mini-latest");
        assert("codex-mini"@[0] != "gpt-5-mini"@[0]);
        assert("codex-mini"@[0] != "gpt-5-nano"@[0]);
        lemma_classify_exact_id("codex-mini"@, Model::CodexMiniLatest);
    }
    assert(spec_classify("codex-mini-latest"@) == Model::CodexMiniLatest) by {
        reveal_strlit("gpt-5");
        reveal_strlit("gpt-5-mini");
        reveal_strlit("gpt-5-nano");
        reveal_strlit("gpt-4-1");
        reveal_strlit("gpt-4-1-mini");
        reveal_strlit("gpt-4-1-nano");
        reveal_strlit("gpt-4o");
        reveal_strlit("gpt-4o-mini");
        reveal_strlit("gpt-4-turbo");
        reveal_strlit("gpt-4-turbo-preview");
        reveal_strlit("o1");
        reveal_strlit("o1-mini");
        reveal_strlit("o3");
        reveal_strlit("o3-mini");
        reveal_strlit("o4-mini");
        reveal_strlit("codex-mini");
        reveal_strlit("codex-mini-latest");
        lemma_classify_exact_id("codex-mini-latest"@, Model::CodexMiniLatest);
    }
}

/// The price book, in thousandths of a US dollar per one million tokens
/// (input, cached input, output; then the same for long prompts). The
/// catch-all `codex-` models and unknown models have no price.
pub proof fn lemma_price_book()
    ensures
        spec_price_for(Model::Gpt5) == Some(Price {
            input_per_million: 1250,
            cached_input_per_million: 125,
            output_per_million: 10000,
            long_context_input_per_million: 2500,
            long_context_cached_per_million: 250,
            long_context_output_per_million: 15000,
        }),
        spec_price_for(Model::Gpt5Mini) == Some(Price {
            input_per_million: 250,
            cached_input_per_million: 25,
            output_per_million: 2000,
            long_context_input_per_million: 450,
            long_context_cached_per_million: 45,
            long_context_output_per_million: 3600,
        }),
        spec_price_for(Model::Gpt5Nano) == Some(Price {
            input_per_million: 50,
            cached_input_per_million: 5,
            output_per_million: 400,
            long_context_input_per_million: 100,
            long_context_cached_per_million: 10,
            long_context_output_per_million: 720,
        }),
        spec_price_for(Model::Gpt41) == Some(Price {
            input_per_million: 2500,
            cached_input_per_million: 500,
            output_per_million: 10000,
            long_context_input_per_million: 5000,
            long_context_cached_per_million: 1000,
            long_context_output_per_million: 15000,
        }),
        spec_price_for(Model::Gpt41Mini) == Some(Price {
            input_per_million: 400,
            cached_input_per_million: 100,
            output_per_million: 1600,
            long_context_input_per_million: 800,
            long_context_cached_per_million: 200,
            long_context_output_per_million: 3200,
        }),
        spec_price_for(Model::Gpt41Nano) == Some(Price {
            input_per_million: 100,
            cached_input_per_million: 25,
            output_per_million: 400,
            long_context_input_per_million: 200,
            long_context_cached_per_million: 50,
            long_context_output_per_million: 800,
        }),
        spec_price_for(Model::Gpt4o) == Some(Price {
            input_per_million: 2500,
            cached_input_per_million: 1250,
            output_per_million: 10000,
            long_context_input_per_million: 2500,
            long_context_cached_per_million: 1250,
            long_context_output_per_million: 10000,
        }),
        spec_price_for(Model::Gpt4oMini) == Some(Price {
            input_per_million: 150,
            cached_input_per_million: 75,
            output_per_million: 600,
            long_context_input_per_million: 150,
            long_context_cached_per_million: 75,
            long_context_output_per_million: 600,
        }),
        spec_price_for(Model::Gpt4Turbo) == Some(Price {
            input_per_million: 10000,
            cached_input_per_million: 10000,
            output_per_million: 30000,
            long_context_input_per_million: 10000,
            long_context_cached_per_million: 10000,
            long_context_output_per_million: 30000,
        }),
        spec_price_for(Model::O1) == Some(Price {
            input_per_million: 15000,
            cached_input_per_million: 7500,
            output_per_million: 60000,
            long_context_input_per_million: 30000,
            long_context_cached_per_million: 15000,
            long_context_output_per_million: 120000,
        }),
        spec_price_for(Model::O1Mini) == Some(Price {
            input_per_million: 3000,
            cached_input_per_million: 1500,
            output_per_million: 12000,
            long_context_input_per_million: 6000,
            long_context_cached_per_million: 3000,
            long_context_output_per_million: 24000,
        }),
        spec_price_for(Model::O3) == Some(Price {
            input_per_million: 10000,
            cached_input_per_million: 2500,
            output_per_million: 40000,
            long_context_input_per_million: 20000,
            long_context_cached_per_million: 5000,
            long_context_output_per_million: 80000,
        }),
        spec_price_for(Model::O3Mini) == Some(Price {
            input_per_million: 1100,
            cached_input_per_million: 550,
            output_per_million: 4400,
            long_context_input_per_million: 2200,
            long_context_cached_per_million: 1100,
            long_context_output_per_million: 8800,
        }),
        spec_price_for(Model::O4Mini) == Some(Price {
            input_per_million: 1100,
            cached_input_per_million: 275,
            output_per_million: 4400,
            long_context_input_per_million: 2200,
            long_context_cached_per_million: 550,
            long_context_output_per_million: 8800,
        }),
        spec_price_for(Model::CodexMiniLatest) == Some(Price {
            input_per_million: 400,
            cached_input_per_million: 100,
            output_per_million: 1600,
            long_context_input_per_million: 800,
            long_context_cached_per_million: 200,
            long_context_output_per_million: 3200,
        }),
        spec_price_for(Model::CodexOther) is None,
        spec_price_for(Model::Unknown) is None,
{
}


/// Each kind of token is billed at its own price. `n` uncached input
/// tokens alone cost `n` times the input price; `n` cached input tokens
/// alone, `n` times the cached price; `n` output tokens alone, `n` times the
/// output price. A prompt of at least 200 000 input tokens (cached ones
/// included) takes the long-context column instead, and a negative count
/// costs nothing.
pub proof fn lemma_cost_by_kind(p: Price, n: i64)
    ensures
        0 <= n < 200_000 ==> spec_cost_nanos(p, TokenUsage { input_tokens: n, cached_input_tokens: 0, output_tokens: 0 })
            == n * p.input_per_million,
        0 <= n < 200_000 ==> spec_cost_nanos(p, TokenUsage { input_tokens: 0, cached_input_tokens: n, output_tokens: 0 })
            == n * p.cached_input_per_million,
        n >= 200_000 ==> spec_cost_nanos(p, TokenUsage { input_tokens: n, cached_input_tokens: 0, output_tokens: 0 })
            == n * p.long_context_input_per_million,
        n >= 200_000 ==> spec_cost_nanos(p, TokenUsage { input_tokens: 0, cached_input_tokens: n, output_tokens: 0 })
            == n * p.long_context_cached_per_million,
        n >= 0 ==> spec_cost_nanos(p, TokenUsage { input_tokens: 0, cached_input_tokens: 0, output_tokens: n })
            == n * p.output_per_million,
        n < 0 ==> spec_cost_nanos(p, TokenUsage { input_tokens: n, cached_input_tokens: n, output_tokens: n }) == 0,
{
    let a = TokenUsage { input_tokens: n, cached_input_tokens: 0, output_tokens: 0 };
    let b = TokenUsage { input_tokens: 0, cached_input_tokens: n, output_tokens: 0 };
    let c = TokenUsage { input_tokens: 0, cached_input_tokens: 0, output_tokens: n };
    assert(spec_input_total(a) == n && spec_input_total(b) == n && spec_input_total(c) == 0);
    assert(0 * (p.input_per_million as nat) == 0 && 0 * (p.cached_input_per_million as nat) == 0
        && 0 * (p.output_per_million as nat) == 0 && 0 * (p.long_context_input_per_million as nat) == 0
        && 0 * (p.long_context_cached_per_million as nat) == 0 && 0 * (p.long_context_output_per_million as nat) == 0);
}


/// An id made of lower-case ASCII letters, digits, dashes and dots.
pub open spec fn is_plain_id(s: Seq<char>) -> bool {
    forall|i: int|
        0 <= i < s.len() ==> #[trigger] s[i] == '-' || s[i] == '.' || ('0' <= s[i] && s[i] <= '9') || ('a' <= s[i]
            && s[i] <= 'z')
}

/// Trimming and lowering leave a plain id as it is.
proof fn lemma_plain_id_normalised(s: Seq<char>)
    requires
        is_plain_id(s),
    ensures
        ascii_lower_seq(trim(s)) == s,
{
    if s.len() > 0 {
        assert(!crate::text::is_white_space(s[0]));
        assert(!crate::text::is_white_space(s[s.len() - 1]));
    }
    assert(trim_start(s) == s);
    assert(crate::text::trim_end(s) == s);
    assert(ascii_lower_seq(s) =~= s);
}

/// A release date does not change what a model id names: a plain id
/// without a date classifies as it does with `-YYYY-MM-DD` appended.
pub proof fn lemma_classify_ignores_date(s: Seq<char>, d: Seq<char>)
    requires
        is_plain_id(s),
        s.len() > 0,
        !has_date_suffix(s),
        d.len() == 11,
        has_date_suffix(d),
    ensures
        spec_classify(s + d) == spec_classify(s),
{
    let x = s + d;
    assert(is_plain_id(x)) by {
        assert forall|i: int| 0 <= i < x.len() implies #[trigger] x[i] == '-' || x[i] == '.' || ('0' <= x[i] && x[i] <= '9')
            || ('a' <= x[i] && x[i] <= 'z') by {
            if i >= s.len() {
                assert(x[i] == d[i - s.len()]);
                assert(is_digit(d[i - s.len()]) || d[i - s.len()] == '-');
            }
        }
    }
    lemma_plain_id_normalised(x);
    lemma_plain_id_normalised(s);
    let n = x.len() as int;
    assert(x[n - 11] == d[0] && x[n - 10] == d[1] && x[n - 9] == d[2] && x[n - 8] == d[3] && x[n - 7] == d[4]
        && x[n - 6] == d[5] && x[n - 5] == d[6] && x[n - 4] == d[7] && x[n - 3] == d[8] && x[n - 2] == d[9]
        && x[n - 1] == d[10]);
    assert(has_date_suffix(x));
    assert(spec_strip_date_suffix(x) =~= s);
}

/// The dotted spellings of the price book's ids classify as the dashed ones.
pub proof fn lemma_dotted_ids()
    ensures
        spec_classify("gpt-4.1"@) == Model::Gpt41,
        spec_classify("gpt-4.1-mini"@) == Model::Gpt41Mini,
        spec_classify("gpt-4.1-nano"@) == Model::Gpt41Nano,
{
    assert(spec_classify("gpt-4.1"@) == Model::Gpt41) by {
        reveal_strlit("gpt-4.1");
        reveal_strlit("gpt-5");
        reveal_strlit("gpt-5-mini");
        reveal_strlit("gpt-5-nano");
        reveal_strlit("gpt-4-1");
        reveal_strlit("gpt-4-1-mini");
        reveal_strlit("gpt-4-1-nano");
        reveal_strlit("gpt-4o");
        reveal_strlit("gpt-4o-mini");
        reveal_strlit("gpt-4-turbo");
        reveal_strlit("gpt-4-turbo-preview");
        reveal_strlit("o1");
        reveal_strlit("o1-mini");
        reveal_strlit("o3");
        reveal_strlit("o3-mini");
        reveal_strlit("o4-mini");
        reveal_strlit("codex-mini");
        reveal_strlit("codex-mini-latest");
        assert("gpt-4.1"@[5] != "gpt-4-1"@[5]);
        assert("gpt-4.1"@[0] != "o1-mini"@[0]);
        assert("gpt-4.1"@[0] != "o3-mini"@[0]);
        assert("gpt-4.1"@[0] != "o4-mini"@[0]);
        assert("gpt-4-1"@[0] != "o1-mini"@[0]);
        assert("gpt-4-1"@[0] != "o3-mini"@[0]);
        assert("gpt-4-1"@[0] != "o4-mini"@[0]);
        assert(dots_to_dashes("gpt-4.1"@) =~= "gpt-4-1"@);
        lemma_plain_id_normalised("gpt-4.1"@);
    }
    assert(spec_classify("gpt-4.1-mini"@) == Model::Gpt41Mini) by {
        reveal_strlit("gpt-4.1-mini");
        reveal_strlit("gpt-5");
        reveal_strlit("gpt-5-mini");
        reveal_strlit("gpt-5-nano");
        reveal_strlit("gpt-4-1");
        reveal_strlit("gpt-4-1-mini");
        reveal_strlit("gpt-4-1-nano");
        reveal_strlit("gpt-4o");
        reveal_strlit("gpt-4o-mini");
        reveal_strlit("gpt-4-turbo");
        reveal_strlit("gpt-4-turbo-preview");
        reveal_strlit("o1");
        reveal_strlit("o1-mini");
        reveal_strlit("o3");
        reveal_strlit("o3-mini");
        reveal_strlit("o4-mini");
        reveal_strlit("codex-mini");
        reveal_strlit("codex-mini-latest");
        assert("gpt-4.1-mini"@[5] != "gpt-4-1-mini"@[5]);
        assert("gpt-4.1-mini"@[5] != "gpt-4-1-nano"@[5]);
        assert("gpt-4-1-mini"@[8] != "gpt-4-1-nano"@[8]);
        assert(dots_to_dashes("gpt-4.1-mini"@) =~= "gpt-4-1-mini"@);
        lemma_plain_id_normalised("gpt-4.1-mini"@);
    }
    assert(spec_classify("gpt-4.1-nano"@) == Model::Gpt41Nano) by {
        reveal_strlit("gpt-4.1-nano");
        reveal_strlit("gpt-5");
        reveal_strlit("gpt-5-mini");
        reveal_strlit("gpt-5-nano");
        reveal_strlit("gpt-4-1");
        reveal_strlit("gpt-4-1-mini");
        reveal_strlit("gpt-4-1-nano");
        reveal_strlit("gpt-4o");
        reveal_strlit("gpt-4o-mini");
        reveal_strlit("gpt-4-turbo");
        reveal_strlit("gpt-4-turbo-preview");
        reveal_strlit("o1");
        reveal_strlit("o1-mini");
        reveal_strlit("o3");
        reveal_strlit("o3-mini");
        reveal_strlit("o4-mini");
        reveal_strlit("codex-mini");
        reveal_strlit("codex-mini-latest");
        assert("gpt-4.1-nano"@[5] != "gpt-4-1-mini"@[5]);
        assert("gpt-4.1-nano"@[5] != "gpt-4-1-nano"@[5]);
        assert("gpt-4-1-nano"@[8] != "gpt-4-1-mini"@[8]);
        assert(dots_to_dashes("gpt-4.1-nano"@) =~= "gpt-4-1-nano"@);
        lemma_plain_id_normalised("gpt-4.1-nano"@);
    }
}

} // verus!
