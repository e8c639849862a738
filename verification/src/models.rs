//! Model providers and models: how they are named, chosen, registered and listed.

use crate::grep::opt;
use crate::order::{arrange, arrangement, in_order, lemma_text_order, lemma_text_total, text_less,
    text_lt};
use crate::paths::{lower, to_lower};
use crate::registry::{ascending, Registry};
use crate::runtime::{natural, parse_u64};
use crate::text::{blank, is_blank, push_text, strs};
use crate::words::{dec, decimal_size, join, joined, pad_left, pad_right, padded_left, padded_right,
    quote, quoted};
use vstd::prelude::*;

verus! {

broadcast use vstd::string::group_string_axioms;

/// Most models of a catalogue that are offered.
pub const CATALOGUE_LIMIT: usize = 50;

/// How hard a model thinks.
#[derive(Debug, Clone, Copy, PartialEq, Eq, Structural)]
pub enum ReasoningEffort {
    Minimal,
    Low,
    Medium,
    High,
}

/// An endpoint and its key.
#[derive(Debug)]
pub struct Provider {
    pub base_url: String,
    pub api_key: String,
    pub headers: Vec<(String, String)>,
}

/// A model. Numbers with a fraction are held as their bits.
#[derive(Debug)]
pub struct ModelDef {
    pub provider: String,
    pub model: String,
    pub temperature_bits: u32,
    pub max_tokens: u32,
    pub context_window: u32,
    pub reasoning_effort: Option<ReasoningEffort>,
    pub top_p_bits: Option<u32>,
    pub stop: Vec<String>,
    pub extra: Vec<(String, String)>,
    pub headers: Vec<(String, String)>,
    pub input_cost_bits: Option<u64>,
    pub output_cost_bits: Option<u64>,
    pub cached_input_cost_bits: Option<u64>,
    pub anthropic_cache: bool,
    pub stream_idle_timeout_seconds: Option<u64>,
}

/// The providers of a user.
#[derive(Debug)]
pub struct ProvidersConfig {
    pub providers: Registry<Provider>,
}

/// The models of a user or a project.
#[derive(Debug)]
pub struct ModelsConfig {
    pub default: Option<String>,
    pub models: Registry<ModelDef>,
}

/// What a setup is to save.
#[derive(Debug)]
pub struct SetupPlan {
    pub provider_name: String,
    pub provider: Provider,
    pub model_name: String,
    pub model: ModelDef,
}

/// What is known of a model beforehand.
#[derive(Debug)]
pub struct Defaults {
    pub name: String,
    pub temperature_bits: u32,
    pub max_tokens: u32,
    pub context_window: u32,
    pub reasoning_effort: Option<ReasoningEffort>,
    pub input_cost_bits: Option<u64>,
    pub output_cost_bits: Option<u64>,
    pub cached_input_cost_bits: Option<u64>,
}

// ---------------------------------------------------------------------------
// Checking what is entered
// ---------------------------------------------------------------------------

/// Whether a name was given.
pub fn valid_name(value: &str) -> (r: Result<(), String>)
    ensures
        r is Err <==> blank(value@),
        r is Err ==> r->Err_0@ == "a value is required"@,
{
    if is_blank(value) {
        Err("a value is required".to_owned())
    } else {
        Ok(())
    }
}

/// The parts of a URL that are looked at.
#[derive(Debug)]
pub struct UrlParts {
    pub scheme: String,
    pub username: String,
    pub has_password: bool,
    pub has_host: bool,
}

/// The scheme and user name of a URL, and whether it has a password and a host;
/// `None` where it is no absolute URL.
pub uninterp spec fn url_parts(url: Seq<char>) -> Option<(Seq<char>, Seq<char>, bool, bool)>;

/// `reqwest::Url::parse`, and `scheme`, `username`, `password` and `host_str` of its
/// result: functions of the text. What a URL is, is left to that crate.
#[verifier::external_body]
fn parse_url(url: &str) -> (r: Option<UrlParts>)
    ensures
        url_parts(url@) == match r {
            Some(p) => Some((p.scheme@, p.username@, p.has_password, p.has_host)),
            None => None,
        },
{
    match reqwest::Url::parse(url) {
        Ok(u) => Some(
            UrlParts {
                scheme: u.scheme().to_string(),
                username: u.username().to_string(),
                has_password: u.password().is_some(),
                has_host: u.host_str().is_some(),
            },
        ),
        Err(_) => None,
    }
}

/// What is wrong with a URL as an endpoint, if anything is.
pub open spec fn endpoint_fault(parts: Option<(Seq<char>, Seq<char>, bool, bool)>) -> Option<
    Seq<char>,
> {
    match parts {
        None => Some("enter a valid absolute URL"@),
        Some((scheme, username, has_password, has_host)) => if scheme != "http"@ && scheme
            != "https"@ {
            Some("the endpoint URL must use http or https"@)
        } else if username.len() > 0 || has_password {
            Some("do not put credentials in the endpoint URL"@)
        } else if !has_host {
            Some("the endpoint URL must include a host"@)
        } else {
            None
        },
    }
}

/// What is known of a URL, by what it holds.
pub open spec fn parts_view(parts: Option<UrlParts>) -> Option<(Seq<char>, Seq<char>, bool, bool)> {
    match parts {
        Some(p) => Some((p.scheme@, p.username@, p.has_password, p.has_host)),
        None => None,
    }
}

/// Whether a URL of these parts can be an endpoint: `http` or `https`, with a host and
/// without credentials.
pub fn check_endpoint(parts: &Option<UrlParts>) -> (r: Result<(), String>)
    ensures
        match endpoint_fault(parts_view(*parts)) {
            Some(e) => r is Err && r->Err_0@ == e,
            None => r is Ok,
        },
{
    match parts {
        None => Err("enter a valid absolute URL".to_owned()),
        Some(p) => {
            if !crate::text::same(&p.scheme, "http") && !crate::text::same(&p.scheme, "https") {
                Err("the endpoint URL must use http or https".to_owned())
            } else if !p.username.as_str().is_empty() || p.has_password {
                Err("do not put credentials in the endpoint URL".to_owned())
            } else if !p.has_host {
                Err("the endpoint URL must include a host".to_owned())
            } else {
                Ok(())
            }
        },
    }
}

/// Whether a URL, its variables expanded, can be an endpoint. Where they could not be
/// expanded, that is what is wrong.
pub fn validate_base_url(expanded: &Result<String, String>) -> (r: Result<(), String>)
    ensures
        match *expanded {
            Err(e) => r is Err && r->Err_0@ == e@,
            Ok(url) => match endpoint_fault(url_parts(url@)) {
                Some(e) => r is Err && r->Err_0@ == e,
                None => r is Ok,
            },
        },
{
    match expanded {
        Err(e) => Err(e.clone()),
        Ok(url) => check_endpoint(&parse_url(url)),
    }
}

/// A positive whole number of 32 bits.
pub fn parse_positive_u32(value: &str) -> (r: Result<u32, String>)
    ensures
        r is Ok <==> natural(value@) is Some && 0 < natural(value@)->0 <= u32::MAX,
        r is Ok ==> r->Ok_0 == natural(value@)->0,
        r is Err ==> r->Err_0@ == "enter a positive whole number"@,
{
    match parse_u64(value) {
        Some(n) => {
            if 0 < n && n <= u32::MAX as u64 {
                return Ok(n as u32);
            }
        },
        None => {},
    }
    Err("enter a positive whole number".to_owned())
}

/// The reasoning effort that a word names.
pub open spec fn effort_of(word: Seq<char>) -> Option<Option<ReasoningEffort>> {
    if word == "none"@ || word == "off"@ || word == ""@ {
        Some(None)
    } else if word == "minimal"@ {
        Some(Some(ReasoningEffort::Minimal))
    } else if word == "low"@ {
        Some(Some(ReasoningEffort::Low))
    } else if word == "medium"@ {
        Some(Some(ReasoningEffort::Medium))
    } else if word == "high"@ {
        Some(Some(ReasoningEffort::High))
    } else {
        None
    }
}

/// The reasoning effort that a word in lower case names.
pub fn effort_word(word: &str) -> (r: Result<Option<ReasoningEffort>, String>)
    ensures
        match effort_of(word@) {
            Some(e) => r == Ok::<Option<ReasoningEffort>, String>(e),
            None => r is Err && r->Err_0@ == "invalid reasoning effort "@ + quoted(word@)
                + " (none|minimal|low|medium|high)"@,
        },
{
    proof {
        reveal_strlit("none");
        reveal_strlit("off");
        reveal_strlit("");
        reveal_strlit("minimal");
        reveal_strlit("low");
        reveal_strlit("medium");
        reveal_strlit("high");
    }
    if crate::text::same(word, "none") || crate::text::same(word, "off") || crate::text::same(
        word,
        "",
    ) {
        Ok(None)
    } else if crate::text::same(word, "minimal") {
        Ok(Some(ReasoningEffort::Minimal))
    } else if crate::text::same(word, "low") {
        Ok(Some(ReasoningEffort::Low))
    } else if crate::text::same(word, "medium") {
        Ok(Some(ReasoningEffort::Medium))
    } else if crate::text::same(word, "high") {
        Ok(Some(ReasoningEffort::High))
    } else {
        let mut msg = "invalid reasoning effort ".to_owned();
        msg.push_str(&quote(word));
        msg.push_str(" (none|minimal|low|medium|high)");
        Err(msg)
    }
}

/// The reasoning effort that a word names, whatever its case.
pub fn parse_reasoning(s: &str) -> (r: Result<Option<ReasoningEffort>, String>)
    ensures
        match effort_of(lower(s@)) {
            Some(e) => r == Ok::<Option<ReasoningEffort>, String>(e),
            None => r is Err && r->Err_0@ == "invalid reasoning effort "@ + quoted(lower(s@))
                + " (none|minimal|low|medium|high)"@,
        },
{
    effort_word(&to_lower(s))
}

// ---------------------------------------------------------------------------
// Setting up
// ---------------------------------------------------------------------------

/// What is asked for a model, in place of what is known of it.
#[derive(Debug)]
pub struct Tuning {
    pub temperature_bits: Option<u32>,
    pub max_tokens: Option<u32>,
    pub context_window: Option<u32>,
    pub reasoning: Option<Option<ReasoningEffort>>,
}

/// A model as it is first registered.
pub open spec fn fresh_model(
    r: ModelDef,
    provider: Seq<char>,
    id: Seq<char>,
    defaults: Defaults,
    tuning: Tuning,
) -> bool {
    &&& r.provider@ == provider
    &&& r.model@ == id
    &&& r.temperature_bits == match tuning.temperature_bits {
        Some(t) => t,
        None => defaults.temperature_bits,
    }
    &&& r.max_tokens == match tuning.max_tokens {
        Some(n) => n,
        None => defaults.max_tokens,
    }
    &&& r.context_window == match tuning.context_window {
        Some(n) => n,
        None => defaults.context_window,
    }
    &&& r.reasoning_effort == match tuning.reasoning {
        Some(e) => e,
        None => defaults.reasoning_effort,
    }
    &&& r.top_p_bits is None
    &&& r.stop@.len() == 0
    &&& r.extra@.len() == 0
    &&& r.headers@.len() == 0
    &&& r.input_cost_bits == defaults.input_cost_bits
    &&& r.output_cost_bits == defaults.output_cost_bits
    &&& r.cached_input_cost_bits == defaults.cached_input_cost_bits
    &&& !r.anthropic_cache
    &&& r.stream_idle_timeout_seconds is None
}

/// A model as it is first registered.
pub fn new_model(provider: String, id: String, defaults: &Defaults, tuning: &Tuning) -> (r: ModelDef)
    ensures
        fresh_model(r, provider@, id@, *defaults, *tuning),
{
    ModelDef {
        provider,
        model: id,
        temperature_bits: match tuning.temperature_bits {
            Some(t) => t,
            None => defaults.temperature_bits,
        },
        max_tokens: match tuning.max_tokens {
            Some(n) => n,
            None => defaults.max_tokens,
        },
        context_window: match tuning.context_window {
            Some(n) => n,
            None => defaults.context_window,
        },
        reasoning_effort: match tuning.reasoning {
            Some(e) => e,
            None => defaults.reasoning_effort,
        },
        top_p_bits: None,
        stop: Vec::new(),
        extra: Vec::new(),
        headers: Vec::new(),
        input_cost_bits: defaults.input_cost_bits,
        output_cost_bits: defaults.output_cost_bits,
        cached_input_cost_bits: defaults.cached_input_cost_bits,
        anthropic_cache: false,
        stream_idle_timeout_seconds: None,
    }
}

/// What saving a provider and a model under these names would replace.
pub open spec fn collisions(
    providers: ProvidersConfig,
    models: ModelsConfig,
    provider_name: Seq<char>,
    model_name: Seq<char>,
) -> Seq<Seq<char>> {
    let a = if providers.providers.has(provider_name) {
        seq!["provider `"@ + provider_name + "`"@]
    } else {
        seq![]
    };
    if models.models.has(model_name) {
        a.push("model `"@ + model_name + "`"@)
    } else {
        a
    }
}

/// What a setup would replace.
pub fn replacements(providers: &ProvidersConfig, models: &ModelsConfig, plan: &SetupPlan) -> (r:
    Vec<String>)
    ensures
        strs(r@) == collisions(*providers, *models, plan.provider_name@, plan.model_name@),
{
    replaced(providers, models, &plan.provider_name, &plan.model_name)
}

/// What saving a provider and a model under these names would replace.
pub fn replaced(
    providers: &ProvidersConfig,
    models: &ModelsConfig,
    provider_name: &str,
    model_name: &str,
) -> (r: Vec<String>)
    ensures
        strs(r@) == collisions(*providers, *models, provider_name@, model_name@),
{
    let mut found: Vec<String> = Vec::new();
    assert(strs(found@) =~= seq![]);
    if providers.providers.contains(provider_name) {
        let mut p = "provider `".to_owned();
        p.push_str(provider_name);
        p.push_str("`");
        found.push(p);
        assert(strs(found@) =~= seq![p@]);
    }
    if models.models.contains(model_name) {
        let ghost before = strs(found@);
        let mut m = "model `".to_owned();
        m.push_str(model_name);
        m.push_str("`");
        found.push(m);
        assert(strs(found@) =~= before.push(m@));
    }
    found
}

/// What is asked before anything is replaced.
pub fn replace_question(found: &Vec<String>) -> (r: String)
    ensures
        r@ == "Replace existing "@ + join(strs(found@), " and "@) + "?"@,
{
    let mut out = "Replace existing ".to_owned();
    out.push_str(&joined(found, " and "));
    out.push_str("?");
    out
}

/// A registry with one entry more, or one replaced.
pub open spec fn inserted<V>(before: Registry<V>, name: String, value: V, after: Registry<V>) -> bool {
    exists|i: int|
        Registry::<V>::slot(before.names(), name@, i) && after.list() == #[trigger] Registry::<
            V,
        >::with_entry(before.list(), name, value, i)
}

/// A model is registered: the model is there, and it is the default where it is asked
/// for, where it is the first, or where there was no default.
pub open spec fn registered(
    before: ModelsConfig,
    name: String,
    def: ModelDef,
    make_default: bool,
    after: ModelsConfig,
) -> bool {
    &&& inserted(before.models, name, def, after.models)
    &&& if make_default || before.models.list().len() == 0 || before.default is None {
        after.default is Some && (after.default->0)@ == name@
    } else {
        after.default == before.default
    }
}

/// Registers a model.
pub fn register_model(cfg: ModelsConfig, name: String, def: ModelDef, make_default: bool) -> (r:
    ModelsConfig)
    ensures
        registered(cfg, name, def, make_default, r),
{
    let first = cfg.models.len() == 0;
    let chosen = name.clone();
    let default = if make_default || first || cfg.default.is_none() {
        Some(chosen)
    } else {
        cfg.default
    };
    ModelsConfig { default, models: cfg.models.insert(name, def) }
}

/// What a setup makes of the providers and models there are: its own are put in, and
/// whatever else there is stays.
pub fn apply_setup(providers: ProvidersConfig, models: ModelsConfig, plan: SetupPlan) -> (r: (
    ProvidersConfig,
    ModelsConfig,
))
    ensures
        inserted(providers.providers, plan.provider_name, plan.provider, r.0.providers),
        registered(models, plan.model_name, plan.model, false, r.1),
{
    (
        ProvidersConfig {
            providers: providers.providers.insert(plan.provider_name, plan.provider),
        },
        register_model(models, plan.model_name, plan.model, false),
    )
}

/// A setup keeps what it does not name: every other provider and model is still there
/// as it was, and so is a default that was set while there were models.
pub proof fn setup_keeps_the_rest(
    before: ModelsConfig,
    plan: SetupPlan,
    after: ModelsConfig,
    k: int,
)
    requires
        registered(before, plan.model_name, plan.model, false, after),
        0 <= k < before.models.list().len(),
    ensures
        before.models.list()[k].0@ != plan.model_name@ ==> after.models.list().contains(
            before.models.list()[k],
        ),
        before.default is Some ==> after.default == before.default,
{
    let i = choose|i: int|
        Registry::<ModelDef>::slot(before.models.names(), plan.model_name@, i)
            && after.models.list() == #[trigger] Registry::<ModelDef>::with_entry(
            before.models.list(),
            plan.model_name,
            plan.model,
            i,
        );
    if before.models.list()[k].0@ != plan.model_name@ {
        crate::registry::insertion_keeps_the_others(
            before.models.list(),
            plan.model_name,
            plan.model,
            i,
            k,
        );
    }
}

// ---------------------------------------------------------------------------
// Choosing from a catalogue
// ---------------------------------------------------------------------------

/// A catalogue as it is offered: the chat models of `entries`, in order, none twice,
/// and the first of them where they are too many.
pub open spec fn offers(entries: Seq<(String, bool)>, offered: Seq<Seq<char>>) -> bool {
    &&& ascending(offered)
    &&& offered.len() <= CATALOGUE_LIMIT
    &&& forall|k: int| 0 <= k < offered.len() ==> chat_model(entries, #[trigger] offered[k])
    &&& forall|id: Seq<char>| #[trigger]
        chat_model(entries, id) && !offered.contains(id) ==> offered.len() == CATALOGUE_LIMIT
            && forall|k: int| 0 <= k < offered.len() ==> text_lt(#[trigger] offered[k], id)
}

/// There is a chat model of this id.
pub open spec fn chat_model(entries: Seq<(String, bool)>, id: Seq<char>) -> bool {
    exists|i: int| 0 <= i < entries.len() && (#[trigger] entries[i]).0@ == id && entries[i].1
}

/// The catalogue as it is offered, each model with whether it is for chat.
pub fn catalogue(entries: &Vec<(String, bool)>) -> (r: Vec<String>)
    ensures
        offers(entries@, strs(r@)),
{
    let mut all: Registry<()> = Registry::new();
    let mut i: usize = 0;
    assert(all.names() =~= seq![]);
    while i < entries.len()
        invariant
            i <= entries@.len(),
            forall|id: Seq<char>| #[trigger]
                all.names().contains(id) <==> chat_model(entries@.take(i as int), id),
        decreases entries.len() - i,
    {
        let ghost before = all;
        let ghost now = entries@.take(i as int);
        let ghost next = entries@.take(i + 1);
        assert(next =~= now.push(entries@[i as int]));
        if entries[i].1 {
            let name = entries[i].0.clone();
            let ghost n = name;
            all = all.insert(name, ());
            proof {
                let at = choose|at: int|
                    Registry::<()>::slot(before.names(), n@, at) && all.list()
                        == #[trigger] Registry::<()>::with_entry(before.list(), n, (), at);
                assert forall|id: Seq<char>| #[trigger]
                    all.names().contains(id) <==> chat_model(next, id) by {
                    crate::registry::lemma_insert_names(before.list(), n, (), at, id);
                    lemma_chat_push(now, entries@[i as int], id);
                    assert(before.names().contains(id) <==> chat_model(now, id));
                }
            }
        } else {
            assert forall|id: Seq<char>| #[trigger]
                all.names().contains(id) <==> chat_model(next, id) by {
                lemma_chat_push(now, entries@[i as int], id);
            }
        }
        i = i + 1;
    }
    assert(entries@.take(i as int) =~= entries@);
    let mut out = all.keys();
    let ghost full = strs(out@);
    assert(full.len() == out@.len());
    if out.len() > CATALOGUE_LIMIT {
        out.truncate(CATALOGUE_LIMIT);
    }
    proof {
        let offered = strs(out@);
        assert(offered =~= full.take(offered.len() as int));
        assert forall|k: int| 0 <= k < offered.len() implies chat_model(
            entries@,
            #[trigger] offered[k],
        ) by {
            assert(full[k] == offered[k]);
            assert(full.contains(offered[k]));
        }
        assert forall|id: Seq<char>| #[trigger]
            chat_model(entries@, id) && !offered.contains(id) implies offered.len()
            == CATALOGUE_LIMIT && forall|k: int|
            0 <= k < offered.len() ==> text_lt(#[trigger] offered[k], id) by {
            assert(full.contains(id));
            let m = choose|m: int| 0 <= m < full.len() && full[m] == id;
            if m < offered.len() {
                assert(offered[m] == id);
            }
            assert forall|k: int| 0 <= k < offered.len() implies text_lt(
                #[trigger] offered[k],
                id,
            ) by {
                assert(text_lt(full[k], full[m]));
            }
        }
    }
    out
}

proof fn lemma_chat_push(entries: Seq<(String, bool)>, e: (String, bool), id: Seq<char>)
    ensures
        chat_model(entries.push(e), id) <==> chat_model(entries, id) || (e.1 && e.0@ == id),
{
    let next = entries.push(e);
    if chat_model(entries, id) {
        let k = choose|k: int|
            0 <= k < entries.len() && (#[trigger] entries[k]).0@ == id && entries[k].1;
        assert(next[k] == entries[k]);
    }
    if e.1 && e.0@ == id {
        assert(next[entries.len() as int] == e);
    }
    if chat_model(next, id) {
        let k = choose|k: int| 0 <= k < next.len() && (#[trigger] next[k]).0@ == id && next[k].1;
        if k < entries.len() {
            assert(entries[k] == next[k]);
        }
    }
}

/// One model of a catalogue as it is offered.
pub fn catalogue_line(index: usize, id: &str) -> (r: String)
    requires
        index < usize::MAX,
    ensures
        r@ == "  "@ + pad_left(dec((index + 1) as nat), 2) + ". "@ + id@,
{
    let mut out = "  ".to_owned();
    out.push_str(&padded_left(&decimal_size(index + 1), 2));
    out.push_str(". ");
    out.push_str(id);
    out
}

/// What came of an answer.
#[derive(Debug)]
pub enum Pick {
    Model(String),
    /// There is no model of that number.
    NoSuchNumber,
    /// Nothing was entered.
    Missing,
}

/// The number that an answer names, where it is one that an index can be.
pub open spec fn picked_number(raw: Seq<char>) -> Option<nat> {
    match natural(raw) {
        Some(n) => if n <= usize::MAX {
            Some(n)
        } else {
            None
        },
        None => None,
    }
}

/// The model that an answer names: by its number in the catalogue, or by its id.
pub fn pick_model(catalogue: &Vec<String>, raw: &str) -> (r: Pick)
    ensures
        match picked_number(raw@) {
            Some(n) => if 1 <= n <= catalogue@.len() {
                r matches Pick::Model(id) && id@ == catalogue@[n - 1]@
            } else {
                r is NoSuchNumber
            },
            None => if blank(raw@) {
                r is Missing
            } else {
                r matches Pick::Model(id) && id@ == raw@
            },
        },
{
    match parse_u64(raw) {
        Some(n) => {
            if n <= usize::MAX as u64 {
                let k: usize = n as usize;
                if 1 <= k && k <= catalogue.len() {
                    return Pick::Model(catalogue[k - 1].clone());
                }
                return Pick::NoSuchNumber;
            }
        },
        None => {},
    }
    if is_blank(raw) {
        Pick::Missing
    } else {
        Pick::Model(raw.to_owned())
    }
}

// ---------------------------------------------------------------------------
// Choosing a provider and a default
// ---------------------------------------------------------------------------

/// Which provider is meant, or why none is: the one that is named, else the only one,
/// else the one named `default`.
pub open spec fn provider_choice(providers: Registry<Provider>, given: Option<Seq<char>>) -> Result<
    Seq<char>,
    Seq<char>,
> {
    if providers.list().len() == 0 {
        Err("no providers configured; run `cowboy models setup`"@)
    } else {
        let name = match given {
            Some(p) => Some(p),
            None => if providers.list().len() == 1 {
                Some(providers.names()[0])
            } else if providers.has("default"@) {
                Some("default"@)
            } else {
                None
            },
        };
        match name {
            None => Err(
                "multiple providers configured; pass --provider <name> ("@ + join(
                    providers.names(),
                    ", "@,
                ) + ")"@,
            ),
            Some(n) => if providers.has(n) {
                Ok(n)
            } else {
                Err("unknown provider "@ + quoted(n) + "; see `cowboy models list`"@)
            },
        }
    }
}

/// Which provider is meant.
pub fn choose_provider(providers: &ProvidersConfig, given: &Option<String>) -> (r: Result<
    String,
    String,
>)
    ensures
        match provider_choice(providers.providers, opt(*given)) {
            Ok(n) => r is Ok && r->Ok_0@ == n,
            Err(e) => r is Err && r->Err_0@ == e,
        },
{
    let all = &providers.providers;
    if all.len() == 0 {
        return Err("no providers configured; run `cowboy models setup`".to_owned());
    }
    let name = match given {
        Some(p) => p.clone(),
        None => {
            if all.len() == 1 {
                all.name_at(0).clone()
            } else if all.contains("default") {
                "default".to_owned()
            } else {
                let mut msg = "multiple providers configured; pass --provider <name> (".to_owned();
                msg.push_str(&joined(&all.keys(), ", "));
                msg.push_str(")");
                return Err(msg);
            }
        },
    };
    if all.contains(&name) {
        Ok(name)
    } else {
        let mut msg = "unknown provider ".to_owned();
        msg.push_str(&quote(&name));
        msg.push_str("; see `cowboy models list`");
        Err(msg)
    }
}

/// The only provider, or the one named `default`.
pub fn sole_provider(providers: &ProvidersConfig) -> (r: Result<String, String>)
    ensures
        match provider_choice(providers.providers, None) {
            Ok(n) => r is Ok && r->Ok_0@ == n,
            Err(e) => r is Err && r->Err_0@ == e,
        },
{
    choose_provider(providers, &None)
}

/// Registers a model of a provider's catalogue: under the name that is given or known
/// for it, with the provider that is meant.
pub fn add(
    providers: &ProvidersConfig,
    cfg: ModelsConfig,
    id: String,
    name: Option<String>,
    provider: &Option<String>,
    defaults: &Defaults,
    tuning: &Tuning,
    make_default: bool,
) -> (r: Result<ModelsConfig, String>)
    ensures
        match provider_choice(providers.providers, opt(*provider)) {
            Err(e) => r is Err && r->Err_0@ == e,
            Ok(p) => r is Ok && exists|n: String, def: ModelDef|
                {
                    &&& n@ == match name {
                        Some(given) => given@,
                        None => defaults.name@,
                    }
                    &&& fresh_model(def, p, id@, *defaults, *tuning)
                    &&& #[trigger] registered(cfg, n, def, make_default, r->Ok_0)
                },
        },
{
    match choose_provider(providers, provider) {
        Err(e) => Err(e),
        Ok(p) => {
            let n = match name {
                Some(given) => given,
                None => defaults.name.clone(),
            };
            let def = new_model(p, id, defaults, tuning);
            let out = register_model(cfg, n, def, make_default);
            let r = Ok::<ModelsConfig, String>(out);
            assert(registered(cfg, n, def, make_default, r->Ok_0));
            r
        },
    }
}

/// What is said of a model that was saved.
pub fn saved_line(name: &str, id: &str, path: &str) -> (r: String)
    ensures
        r@ == "saved model `"@ + name@ + "` ("@ + id@ + ") to "@ + path@,
{
    let mut out = "saved model `".to_owned();
    out.push_str(name);
    out.push_str("` (");
    out.push_str(id);
    out.push_str(") to ");
    out.push_str(path);
    out
}

/// What is said of a model that was added: that it is saved, and that it is the default
/// where it is.
pub fn added_lines(name: &str, id: &str, path: &str, cfg: &ModelsConfig) -> (r: Vec<String>)
    ensures
        ({
            let saved = "saved model `"@ + name@ + "` ("@ + id@ + ") to "@ + path@;
            strs(r@) == if cfg.default is Some && (cfg.default->0)@ == name@ {
                seq![saved, "  (default model)"@]
            } else {
                seq![saved]
            }
        }),
{
    let mut out: Vec<String> = Vec::new();
    out.push(saved_line(name, id, path));
    let is_default = match &cfg.default {
        Some(d) => crate::text::same(d, name),
        None => false,
    };
    assert(strs(out@) =~= seq!["saved model `"@ + name@ + "` ("@ + id@ + ") to "@ + path@]);
    if is_default {
        out.push("  (default model)".to_owned());
        assert(strs(out@) =~= seq![
            "saved model `"@ + name@ + "` ("@ + id@ + ") to "@ + path@,
            "  (default model)"@,
        ]);
    }
    out
}

/// What is said of a new default, the user's or the project's.
pub fn default_set_line(global: bool, name: &str, path: &str) -> (r: String)
    ensures
        r@ == (if global {
            "user"@
        } else {
            "project"@
        }) + " default is now `"@ + name@ + "` ("@ + path@ + ")"@,
{
    let mut out = (if global {
        "user"
    } else {
        "project"
    }).to_owned();
    out.push_str(" default is now `");
    out.push_str(name);
    out.push_str("` (");
    out.push_str(path);
    out.push_str(")");
    out
}

/// What the default comes to: a model at an endpoint, or why it comes to none.
pub fn resolves_line(resolved: &Result<(String, String), String>) -> (r: String)
    ensures
        match *resolved {
            Ok((model, url)) => r@ == "resolves to: "@ + model@ + " @ "@ + url@,
            Err(why) => r@ == "note: "@ + why@,
        },
{
    match resolved {
        Ok((model, url)) => {
            let mut out = "resolves to: ".to_owned();
            out.push_str(model);
            out.push_str(" @ ");
            out.push_str(url);
            out
        },
        Err(why) => {
            let mut out = "note: ".to_owned();
            out.push_str(why);
            out
        },
    }
}

/// A model of this name is known to the user or the project.
pub open spec fn known(
    user: Option<ModelsConfig>,
    project: Option<ModelsConfig>,
    name: Seq<char>,
) -> bool {
    (user is Some && (user->0).models.has(name)) || (project is Some && (project->0).models.has(
        name,
    ))
}

/// Whether a model can be made the default: it has to be known.
pub fn check_default(user: &Option<ModelsConfig>, project: &Option<ModelsConfig>, name: &str) -> (r:
    Result<(), String>)
    ensures
        r is Ok <==> known(*user, *project, name@),
        r is Err ==> r->Err_0@ == "unknown model "@ + quoted(name@)
            + "; see `cowboy models list`"@,
{
    let in_user = match user {
        Some(u) => u.models.contains(name),
        None => false,
    };
    let in_project = match project {
        Some(p) => p.models.contains(name),
        None => false,
    };
    if in_user || in_project {
        Ok(())
    } else {
        let mut msg = "unknown model ".to_owned();
        msg.push_str(&quote(name));
        msg.push_str("; see `cowboy models list`");
        Err(msg)
    }
}

/// The configuration with this default, an empty one where there was none.
pub fn with_default(cfg: Option<ModelsConfig>, name: &str) -> (r: ModelsConfig)
    ensures
        r.default is Some && (r.default->0)@ == name@,
        match cfg {
            Some(c) => r.models == c.models,
            None => r.models.list().len() == 0,
        },
{
    match cfg {
        Some(c) => ModelsConfig { default: Some(name.to_owned()), models: c.models },
        None => ModelsConfig { default: Some(name.to_owned()), models: Registry::new() },
    }
}

/// The default that holds: the project's, else the user's.
pub open spec fn effective_default(
    user: Option<ModelsConfig>,
    project: Option<ModelsConfig>,
) -> Option<Seq<char>> {
    if project is Some && (project->0).default is Some {
        Some(((project->0).default->0)@)
    } else if user is Some && (user->0).default is Some {
        Some(((user->0).default->0)@)
    } else {
        None
    }
}

/// What is said of the default.
pub fn default_line(user: &Option<ModelsConfig>, project: &Option<ModelsConfig>) -> (r: String)
    ensures
        r@ == "default: "@ + match effective_default(*user, *project) {
            Some(d) => d,
            None => "(none set — `cowboy models use <name>`)"@,
        },
{
    let mut out = "default: ".to_owned();
    match project {
        Some(p) => match &p.default {
            Some(d) => {
                out.push_str(d);
                return out;
            },
            None => {},
        },
        None => {},
    }
    match user {
        Some(u) => match &u.default {
            Some(d) => {
                out.push_str(d);
                return out;
            },
            None => {},
        },
        None => {},
    }
    out.push_str("(none set — `cowboy models use <name>`)");
    out
}

/// A provider in the list; its key is never shown, only whether there is one.
pub fn provider_line(name: &str, p: &Provider) -> (r: String)
    ensures
        r@ == "  "@ + pad_right(name@, 14) + " "@ + p.base_url@ + "  key: "@
            + (if p.api_key@.len() == 0 {
            "MISSING"@
        } else {
            "set"@
        }),
{
    let mut out = "  ".to_owned();
    out.push_str(&padded_right(name, 14));
    out.push_str(" ");
    out.push_str(&p.base_url);
    out.push_str("  key: ");
    out.push_str(if p.api_key.as_str().is_empty() { "MISSING" } else { "set" });
    out
}

/// The model that a name stands for, and where it comes from: the project's, else the
/// user's.
pub open spec fn effective(
    user: Option<ModelsConfig>,
    project: Option<ModelsConfig>,
    name: Seq<char>,
    def: ModelDef,
    source: Seq<char>,
) -> bool {
    if project is Some && (project->0).models.has(name) {
        source == "project"@ && holds((project->0).models, name, def)
    } else {
        source == "user"@ && user is Some && holds((user->0).models, name, def)
    }
}

/// A registry has this under this name.
pub open spec fn holds<V>(r: Registry<V>, name: Seq<char>, value: V) -> bool {
    exists|i: int|
        0 <= i < r.list().len() && (#[trigger] r.list()[i]).0@ == name && r.list()[i].1 == value
}

/// A model in the list, with where it comes from.
pub open spec fn model_line(name: Seq<char>, def: ModelDef, source: Seq<char>) -> Seq<char> {
    "  "@ + pad_right(name, 14) + " "@ + def.model@ + " via "@ + def.provider@ + "  ["@ + source
        + "]"@
}

/// The line of a model in the list: that of the project where it has one of that name.
pub fn effective_line(user: &Option<ModelsConfig>, project: &Option<ModelsConfig>, name: &str) -> (r:
    Option<String>)
    ensures
        r is Some <==> known(*user, *project, name@),
        r is Some ==> exists|def: ModelDef, source: Seq<char>|
            effective(*user, *project, name@, def, source) && (r->0)@ == #[trigger] model_line(
                name@,
                def,
                source,
            ),
{
    let from_project = match project {
        Some(p) => p.models.get(name),
        None => None,
    };
    match from_project {
        Some(d) => {
            return Some(line_of(name, d, "project"));
        },
        None => {},
    }
    let from_user = match user {
        Some(u) => u.models.get(name),
        None => None,
    };
    match from_user {
        Some(d) => Some(line_of(name, d, "user")),
        None => None,
    }
}

fn line_of(name: &str, def: &ModelDef, source: &str) -> (r: String)
    ensures
        r@ == model_line(name@, *def, source@),
{
    let mut out = "  ".to_owned();
    out.push_str(&padded_right(name, 14));
    out.push_str(" ");
    out.push_str(&def.model);
    out.push_str(" via ");
    out.push_str(&def.provider);
    out.push_str("  [");
    out.push_str(source);
    out.push_str("]");
    out
}

/// A model of a provider's catalogue in the list of what is available.
pub open spec fn available_text(
    id: Seq<char>,
    suggested: Seq<char>,
    configured: Seq<Seq<char>>,
) -> Seq<char> {
    "  "@ + pad_right(id, 50) + " "@ + suggested + (if configured.contains(id) {
        "  [configured]"@
    } else {
        ""@
    })
}

/// A model of a provider's catalogue in the list of what is available: all are shown,
/// or only those for chat.
pub fn available_line(
    id: &str,
    is_chat: bool,
    suggested: &str,
    configured: &Vec<String>,
    all: bool,
) -> (r: Option<String>)
    ensures
        r is Some <==> all || is_chat,
        r is Some ==> (r->0)@ == available_text(id@, suggested@, strs(configured@)),
{
    if !all && !is_chat {
        return None;
    }
    let mut out = "  ".to_owned();
    out.push_str(&padded_right(id, 50));
    out.push_str(" ");
    out.push_str(suggested);
    out.push_str(if crate::ranch::lists(configured, id) { "  [configured]" } else { "" });
    Some(out)
}

// ---------------------------------------------------------------------------
// What there is
// ---------------------------------------------------------------------------

/// The names of the models that the user or the project has: in order, none twice.
pub fn model_names(user: &Option<ModelsConfig>, project: &Option<ModelsConfig>) -> (r: Vec<String>)
    ensures
        ascending(strs(r@)),
        forall|name: Seq<char>| #[trigger]
            strs(r@).contains(name) <==> known(*user, *project, name),
{
    let mut all: Registry<()> = Registry::new();
    assert(all.names() =~= seq![]);
    if let Some(u) = user {
        all = with_names(all, &u.models);
    }
    if let Some(p) = project {
        all = with_names(all, &p.models);
    }
    all.keys()
}

/// The names of both.
fn with_names(all: Registry<()>, models: &Registry<ModelDef>) -> (r: Registry<()>)
    ensures
        forall|name: Seq<char>| #[trigger]
            r.names().contains(name) <==> all.names().contains(name) || models.has(name),
{
    let mut out = all;
    let mut i: usize = 0;
    while i < models.len()
        invariant
            i <= models.list().len(),
            forall|name: Seq<char>| #[trigger]
                out.names().contains(name) <==> all.names().contains(name)
                    || models.names().take(i as int).contains(name),
        decreases models.list().len() - i,
    {
        let ghost before = out;
        let ghost now = models.names().take(i as int);
        let ghost next = models.names().take(i + 1);
        let name = models.name_at(i).clone();
        let ghost n = name;
        assert(next =~= now.push(n@));
        out = out.insert(name, ());
        proof {
            let at = choose|at: int|
                Registry::<()>::slot(before.names(), n@, at) && out.list() == #[trigger] Registry::<
                    (),
                >::with_entry(before.list(), n, (), at);
            assert forall|x: Seq<char>| #[trigger]
                out.names().contains(x) <==> all.names().contains(x) || next.contains(x) by {
                crate::registry::lemma_insert_names(before.list(), n, (), at, x);
                assert(before.names().contains(x) <==> all.names().contains(x) || now.contains(x));
                lemma_contains_push(now, n@, x);
            }
        }
        i = i + 1;
    }
    proof {
        assert(models.names().take(i as int) =~= models.names());
    }
    out
}

proof fn lemma_contains_push(s: Seq<Seq<char>>, a: Seq<char>, x: Seq<char>)
    ensures
        s.push(a).contains(x) <==> s.contains(x) || x == a,
{
    let t = s.push(a);
    if s.contains(x) {
        let k = choose|k: int| 0 <= k < s.len() && s[k] == x;
        assert(t[k] == x);
    }
    if x == a {
        assert(t[s.len() as int] == x);
    }
    if t.contains(x) {
        let k = choose|k: int| 0 <= k < t.len() && t[k] == x;
        if k < s.len() {
            assert(s[k] == x);
        }
    }
}

/// A model of this id of a provider is registered.
pub open spec fn registered_id(cfg: Option<ModelsConfig>, id: Seq<char>) -> bool {
    cfg is Some && exists|i: int|
        0 <= i < (cfg->0).models.list().len() && (#[trigger] (cfg->0).models.list()[i]).1.model@
            == id
}

/// The ids of the models that the user or the project has registered.
pub fn configured_ids(user: &Option<ModelsConfig>, project: &Option<ModelsConfig>) -> (r: Vec<
    String,
>)
    ensures
        forall|id: Seq<char>| #[trigger]
            strs(r@).contains(id) <==> registered_id(*user, id) || registered_id(*project, id),
{
    let mut out: Vec<String> = Vec::new();
    assert(strs(out@) =~= seq![]);
    add_ids(&mut out, user);
    add_ids(&mut out, project);
    out
}

fn add_ids(out: &mut Vec<String>, cfg: &Option<ModelsConfig>)
    ensures
        forall|id: Seq<char>| #[trigger]
            strs(final(out)@).contains(id) <==> strs(old(out)@).contains(id) || registered_id(
                *cfg,
                id,
            ),
{
    let ghost before = strs(out@);
    match cfg {
        None => {},
        Some(c) => {
            let ghost all = c.models.list();
            let mut i: usize = 0;
            while i < c.models.len()
                invariant
                    i <= all.len(),
                    all == c.models.list(),
                    forall|id: Seq<char>| #[trigger]
                        strs(out@).contains(id) <==> before.contains(id) || exists|k: int|
                            0 <= k < i && (#[trigger] all[k]).1.model@ == id,
                decreases all.len() - i,
            {
                let ghost now = strs(out@);
                let id = c.models.value_at(i).model.clone();
                let ghost added = id@;
                push_text(out, id);
                proof {
                    assert forall|x: Seq<char>| #[trigger]
                        strs(out@).contains(x) <==> before.contains(x) || exists|k: int|
                            0 <= k < i + 1 && (#[trigger] all[k]).1.model@ == x by {
                        lemma_contains_push(now, added, x);
                        assert(all[i as int].1.model@ == added);
                        if now.contains(x) && !before.contains(x) {
                            let k = choose|k: int| 0 <= k < i && (#[trigger] all[k]).1.model@ == x;
                            assert(all[k].1.model@ == x && k < i + 1);
                        }
                    }
                }
                i = i + 1;
            }
        },
    }
}

/// A model of a provider's catalogue: its id, whether it is for chat, and the name that
/// is suggested for it.
#[derive(Debug)]
pub struct Entry {
    pub id: String,
    pub is_chat: bool,
    pub suggested: String,
}

/// The lines on the first `n` models of a catalogue, taken in this order.
pub open spec fn entry_lines(
    entries: Seq<Entry>,
    order: Seq<usize>,
    configured: Seq<Seq<char>>,
    all: bool,
    n: int,
) -> Seq<Seq<char>>
    decreases n,
{
    if n <= 0 {
        seq![]
    } else {
        let e = entries[order[n - 1] as int];
        let before = entry_lines(entries, order, configured, all, n - 1);
        if all || e.is_chat {
            before.push(available_text(e.id@, e.suggested@, configured))
        } else {
            before
        }
    }
}

/// What is shown of a provider's catalogue: its models by id, and a word where none is
/// shown.
pub open spec fn catalogue_texts(
    entries: Seq<Entry>,
    order: Seq<usize>,
    configured: Seq<Seq<char>>,
    all: bool,
) -> Seq<Seq<char>> {
    let lines = entry_lines(entries, order, configured, all, order.len() as int);
    if lines.len() == 0 {
        seq!["  (no chat models; pass --all to see everything)"@]
    } else {
        lines
    }
}

/// The order of a catalogue: by id, those of one id as they were.
pub open spec fn by_id(entries: Seq<Entry>) -> spec_fn(int, int) -> bool {
    |i: int, j: int| text_lt(entries[i].id@, entries[j].id@)
}

/// What is shown of a provider's catalogue.
pub fn available(entries: &Vec<Entry>, configured: &Vec<String>, all: bool) -> (r: Vec<String>)
    ensures
        exists|order: Seq<usize>|
            {
                &&& arrangement(order, entries@.len() as int)
                &&& in_order(order, by_id(entries@))
                &&& strs(r@) == #[trigger] catalogue_texts(entries@, order, strs(configured@), all)
            },
{
    let ghost lt = by_id(entries@);
    proof {
        assert forall|x: int, y: int| #[trigger] lt(x, y) implies !lt(y, x) by {
            lemma_text_total(entries@[x].id@, entries@[y].id@);
        }
        assert forall|x: int, y: int, z: int|
            #![trigger lt(x, y), lt(y, z)]
            !lt(x, y) && !lt(y, z) implies !lt(x, z) by {
            lemma_text_order(entries@[x].id@, entries@[y].id@, entries@[z].id@);
        }
    }
    let less = |i: usize, j: usize| -> (b: bool)
        requires
            i < entries@.len(),
            j < entries@.len(),
        ensures
            b == text_lt(entries@[i as int].id@, entries@[j as int].id@),
        { text_less(&entries[i].id, &entries[j].id) };
    let order = arrange(entries.len(), less, Ghost(lt));
    let mut out: Vec<String> = Vec::new();
    let mut i: usize = 0;
    assert(strs(out@) =~= seq![]);
    while i < order.len()
        invariant
            i <= order@.len(),
            arrangement(order@, entries@.len() as int),
            strs(out@) == entry_lines(entries@, order@, strs(configured@), all, i as int),
        decreases order.len() - i,
    {
        assert(order@[i as int] < entries@.len());
        let e = &entries[order[i]];
        match available_line(&e.id, e.is_chat, &e.suggested, configured, all) {
            Some(line) => {
                push_text(&mut out, line);
            },
            None => {},
        }
        i = i + 1;
    }
    assert(strs(out@).len() == out@.len());
    if out.len() == 0 {
        push_text(&mut out, "  (no chat models; pass --all to see everything)".to_owned());
        assert(strs(out@) =~= seq!["  (no chat models; pass --all to see everything)"@]);
    }
    assert(strs(out@) == catalogue_texts(entries@, order@, strs(configured@), all));
    out
}

/// Saves a model from a form in which everything was filled in: with the only provider,
/// and as the default where it is the first. `reasoning` is a word for how hard it thinks.
pub fn save_user_model(
    providers: &ProvidersConfig,
    cfg: ModelsConfig,
    name: &str,
    id: &str,
    temperature_bits: u32,
    context_window: u32,
    max_output: u32,
    reasoning: &str,
    defaults: &Defaults,
) -> (r: Result<ModelsConfig, String>)
    ensures
        match (provider_choice(providers.providers, None), effort_of(lower(reasoning@))) {
            (Err(e), _) => r is Err && r->Err_0@ == e,
            (Ok(_), None) => r is Err && r->Err_0@ == "invalid reasoning effort "@ + quoted(
                lower(reasoning@),
            ) + " (none|minimal|low|medium|high)"@,
            (Ok(p), Some(effort)) => r is Ok && exists|n: String, def: ModelDef|
                {
                    &&& n@ == name@
                    &&& fresh_model(
                        def,
                        p,
                        id@,
                        *defaults,
                        Tuning {
                            temperature_bits: Some(temperature_bits),
                            max_tokens: Some(max_output),
                            context_window: Some(context_window),
                            reasoning: Some(effort),
                        },
                    )
                    &&& #[trigger] registered(cfg, n, def, false, r->Ok_0)
                },
        },
{
    let provider = match sole_provider(providers) {
        Ok(p) => p,
        Err(e) => {
            return Err(e);
        },
    };
    let effort = match parse_reasoning(reasoning) {
        Ok(e) => e,
        Err(e) => {
            return Err(e);
        },
    };
    let tuning = Tuning {
        temperature_bits: Some(temperature_bits),
        max_tokens: Some(max_output),
        context_window: Some(context_window),
        reasoning: Some(effort),
    };
    let def = new_model(provider, id.to_owned(), defaults, &tuning);
    let n = name.to_owned();
    let ghost (gn, gd) = (n, def);
    let out = register_model(cfg, n, def, false);
    let r = Ok::<ModelsConfig, String>(out);
    assert(registered(cfg, gn, gd, false, r->Ok_0));
    r
}

/// An endpoint is taken exactly where its URL can be read, is `http` or `https`, names a
/// host, and carries no credentials.
pub proof fn endpoints_are_checked(parts: Option<(Seq<char>, Seq<char>, bool, bool)>)
    ensures
        endpoint_fault(parts) is None <==> (parts matches Some(p) && (p.0 == "http"@ || p.0
            == "https"@) && p.1.len() == 0 && !p.2 && p.3),
{
}

/// The words for how hard a model thinks: one for each, and three for not at all.
pub proof fn efforts_have_words(word: Seq<char>)
    ensures
        effort_of("minimal"@) == Some(Some(ReasoningEffort::Minimal)),
        effort_of("low"@) == Some(Some(ReasoningEffort::Low)),
        effort_of("medium"@) == Some(Some(ReasoningEffort::Medium)),
        effort_of("high"@) == Some(Some(ReasoningEffort::High)),
        effort_of("none"@) == Some(None::<ReasoningEffort>),
        effort_of("off"@) == Some(None::<ReasoningEffort>),
        effort_of(""@) == Some(None::<ReasoningEffort>),
        effort_of(word) is Some <==> seq![
            "minimal"@,
            "low"@,
            "medium"@,
            "high"@,
            "none"@,
            "off"@,
            ""@,
        ].contains(word),
{
    reveal_strlit("minimal");
    reveal_strlit("low");
    reveal_strlit("medium");
    reveal_strlit("high");
    reveal_strlit("none");
    reveal_strlit("off");
    reveal_strlit("");
    assert("minimal"@[0] == 'm' && "minimal"@[1] == 'i');
    assert("medium"@[0] == 'm' && "medium"@[1] == 'e');
    assert("low"@.len() == 3 && "off"@.len() == 3 && "none"@.len() == 4 && ""@.len() == 0);
    assert("low"@[0] == 'l' && "high"@[0] == 'h' && "none"@[0] == 'n' && "off"@[0] == 'o');
    let all = seq!["minimal"@, "low"@, "medium"@, "high"@, "none"@, "off"@, ""@];
    assert(all[0] == "minimal"@ && all[1] == "low"@ && all[2] == "medium"@ && all[3] == "high"@
        && all[4] == "none"@ && all[5] == "off"@ && all[6] == ""@);
    if all.contains(word) {
        let k = all.index_of(word);
        assert(0 <= k < 7 && all[k] == word);
    }
}

/// What is said about a new model goes over what is known of it, and what is not said is
/// taken from there.
pub proof fn settings_go_over_defaults(
    r: ModelDef,
    provider: Seq<char>,
    id: Seq<char>,
    defaults: Defaults,
    tuning: Tuning,
)
    requires
        fresh_model(r, provider, id, defaults, tuning),
    ensures
        r.provider@ == provider && r.model@ == id,
        tuning.temperature_bits matches Some(t) ==> r.temperature_bits == t,
        tuning.temperature_bits is None ==> r.temperature_bits == defaults.temperature_bits,
        tuning.max_tokens matches Some(n) ==> r.max_tokens == n,
        tuning.max_tokens is None ==> r.max_tokens == defaults.max_tokens,
        tuning.context_window matches Some(n) ==> r.context_window == n,
        tuning.context_window is None ==> r.context_window == defaults.context_window,
        tuning.reasoning matches Some(e) ==> r.reasoning_effort == e,
        tuning.reasoning is None ==> r.reasoning_effort == defaults.reasoning_effort,
{
}

/// A model that is registered becomes the default where that is asked for, where it is the
/// first, and where there was no default; else the default stays.
pub proof fn first_models_become_the_default(
    before: ModelsConfig,
    name: String,
    def: ModelDef,
    make_default: bool,
    after: ModelsConfig,
)
    requires
        registered(before, name, def, make_default, after),
    ensures
        make_default || before.default is None || before.models.list().len() == 0 ==> (
        after.default matches Some(d) && d@ == name@),
        !make_default && before.default is Some && before.models.list().len() > 0 ==> after.default
            == before.default,
{
}

/// Which provider a new model is for: the one that is named, where there is such a one; else
/// the only one there is, or the one called `default`.
pub proof fn providers_are_chosen(providers: Registry<Provider>, given: Option<Seq<char>>)
    ensures
        ({
            let r = provider_choice(providers, given);
            let n = providers.list().len();
            &&& n == 0 ==> r is Err
            &&& n > 0 && given is Some ==> (r is Ok <==> providers.has(given->0))
            &&& n > 0 && given is Some && r is Ok ==> r->Ok_0 == given->0
            &&& n == 1 && given is None ==> r == Ok::<Seq<char>, Seq<char>>(providers.names()[0])
            &&& n > 1 && given is None ==> (r is Ok <==> providers.has("default"@))
            &&& n > 1 && given is None && r is Ok ==> r->Ok_0 == "default"@
        }),
{
    if providers.list().len() == 1 {
        assert(providers.names()[0] == providers.names()[0]);
        assert(providers.names().contains(providers.names()[0]));
    }
}

/// A project's default goes over the user's.
pub proof fn project_defaults_win(user: Option<ModelsConfig>, project: Option<ModelsConfig>)
    ensures
        project matches Some(p) ==> (p.default matches Some(d) ==> effective_default(user, project)
            == Some(d@)),
        !(project matches Some(p) && p.default is Some) ==> (user matches Some(u) ==> (
        u.default matches Some(d) ==> effective_default(user, project) == Some(d@))),
        !(project matches Some(p) && p.default is Some) && !(user matches Some(u)
            && u.default is Some) ==> effective_default(user, project) is None,
{
}

} // verus!
