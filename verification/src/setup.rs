//! Setting up a provider and a model in a dialogue: what is asked, in which order, what
//! is made of each answer, and what is saved in the end.

use crate::models::{catalogue, catalogue_line, collisions, effort_of, endpoint_fault, fresh_model,
    new_model, offers, parse_positive_u32, parse_reasoning, pick_model, picked_number, replace_question,
    replaced, url_parts, valid_name, validate_base_url, Defaults, ModelsConfig, Pick, Provider,
    ProvidersConfig, ReasoningEffort, SetupPlan, Tuning};
use crate::paths::lower;
use crate::runtime::natural;
use crate::text::{blank, is_blank, is_ws, push_text, strs, trim, trim_end, trim_start, trimmed};
use crate::words::{dec, decimal, join, pad_left, quoted};
use vstd::prelude::*;

verus! {

broadcast use vstd::string::group_string_axioms;

/// What a setup is at.
#[derive(Debug, Clone, Copy, PartialEq, Eq, Structural)]
pub enum Stage {
    ProviderName,
    BaseUrl,
    ApiKey,
    /// The endpoint is asked for its models.
    Catalogue,
    /// A model is picked from the catalogue.
    PickId,
    /// There is no catalogue: a model's id is entered.
    ManualId,
    /// What is known of the model is looked up.
    Known,
    ModelName,
    /// Whether the model is to be tuned.
    Advanced,
    Temperature,
    MaxTokens,
    ContextWindow,
    Reasoning,
    /// Whether what there is may be replaced.
    Replace,
    Save,
    /// Nothing is saved.
    Declined,
}

/// A setup: what it is at, and what it knows so far.
#[derive(Debug)]
pub struct Setup {
    pub stage: Stage,
    pub provider_name: String,
    pub base_url: String,
    pub api_key: String,
    pub offered: Vec<String>,
    pub model_id: String,
    pub known: Defaults,
    pub model_name: String,
    pub tuning: Tuning,
}

/// What is to be asked or done.
#[derive(Debug)]
pub enum Question {
    /// A text is asked for.
    Text { label: &'static str, default: Option<String> },
    /// A text is asked for that is not to be shown.
    Secret { label: String },
    /// The endpoint is to be asked for its models.
    Catalogue,
    /// What is known of this model is to be looked up.
    Known { id: String },
    /// A temperature is asked for, this one being the default.
    Temperature { default_bits: u32 },
    /// Yes or no; no by default.
    Confirm { text: &'static str },
    /// Whether something may be lost.
    Destroy { text: String },
    /// The plan is to be saved.
    Save,
    /// Nothing more.
    Nothing,
}

/// What an endpoint said of its models, each with whether it is for chat.
#[derive(Debug)]
pub enum CatalogueReply {
    Entries(Vec<(String, bool)>),
    Failed,
    TimedOut,
}

/// An answer.
#[derive(Debug)]
pub enum Answer {
    Text(String),
    /// A URL as it was entered, and with its variables expanded or why they cannot be.
    Url { value: String, expanded: Result<String, String> },
    Catalogue(CatalogueReply),
    Known(Defaults),
    Confirmed(bool),
    /// A temperature, or what is wrong with it.
    Temperature(Result<u32, String>),
}

/// What is said of an answer.
#[derive(Debug)]
pub enum Said {
    Nothing,
    Warning(String),
    Lines(Vec<String>),
}

/// The word for a reasoning effort.
pub open spec fn effort_text(e: Option<ReasoningEffort>) -> Seq<char> {
    match e {
        None => "none"@,
        Some(ReasoningEffort::Minimal) => "minimal"@,
        Some(ReasoningEffort::Low) => "low"@,
        Some(ReasoningEffort::Medium) => "medium"@,
        Some(ReasoningEffort::High) => "high"@,
    }
}

fn effort_name(e: Option<ReasoningEffort>) -> (r: &'static str)
    ensures
        r@ == effort_text(e),
{
    match e {
        None => "none",
        Some(ReasoningEffort::Minimal) => "minimal",
        Some(ReasoningEffort::Low) => "low",
        Some(ReasoningEffort::Medium) => "medium",
        Some(ReasoningEffort::High) => "high",
    }
}

/// A text is asked for, with this label and this default.
pub open spec fn asks(q: Question, label: Seq<char>, default: Option<Seq<char>>) -> bool {
    q matches Question::Text { label: l, default: d } && l@ == label && match default {
        Some(t) => d is Some && (d->0)@ == t,
        None => d is None,
    }
}

/// What is asked or done at a stage.
pub open spec fn question_of(
    s: Setup,
    providers: ProvidersConfig,
    models: ModelsConfig,
    q: Question,
) -> bool {
    match s.stage {
        Stage::ProviderName => asks(q, "Provider name"@, Some("default"@)),
        Stage::BaseUrl => asks(q, "Endpoint base URL (e.g. https://host/v1)"@, None),
        Stage::ApiKey => q matches Question::Secret { label } && label@ == "API key for "@
            + s.provider_name@,
        Stage::Catalogue => q is Catalogue,
        Stage::PickId => asks(q, "Model number or id"@, None),
        Stage::ManualId => asks(q, "Model id"@, None),
        Stage::Known => q matches Question::Known { id } && id@ == s.model_id@,
        Stage::ModelName => asks(q, "Model name"@, Some(s.known.name@)),
        Stage::Advanced => q matches Question::Confirm { text } && text@
            == "Configure advanced model tuning?"@,
        Stage::Temperature => q == Question::Temperature {
            default_bits: s.known.temperature_bits,
        },
        Stage::MaxTokens => asks(q, "Max output tokens"@, Some(dec(s.known.max_tokens as nat))),
        Stage::ContextWindow => asks(q, "Context window"@, Some(dec(s.known.context_window as nat))),
        Stage::Reasoning => asks(
            q,
            "Reasoning effort"@,
            Some(effort_text(s.known.reasoning_effort)),
        ),
        Stage::Replace => q matches Question::Destroy { text } && text@ == "Replace existing "@
            + join(
            collisions(providers, models, s.provider_name@, s.model_name@),
            " and "@,
        ) + "?"@,
        Stage::Save => q is Save,
        Stage::Declined => q is Nothing,
    }
}

/// The lines on a catalogue that is offered, of its first `n` models.
pub open spec fn offer_lines(offered: Seq<Seq<char>>, n: int) -> Seq<Seq<char>>
    decreases n,
{
    if n <= 0 {
        seq!["Choose a model, or enter its provider id manually:"@]
    } else {
        offer_lines(offered, n - 1).push("  "@ + pad_left(dec(n as nat), 2) + ". "@ + offered[n - 1])
    }
}

/// An answer was not accepted: it is asked again, after a warning.
pub open spec fn again(s: Setup, t: Setup, said: Said, warning: Seq<char>) -> bool {
    &&& t == s
    &&& said matches Said::Warning(w) && w@ == warning
}

/// There is no catalogue to pick from: a model's id is to be entered, after a warning.
pub open spec fn by_hand(s: Setup, t: Setup, said: Said, warning: Seq<char>) -> bool {
    &&& t == (Setup { stage: Stage::ManualId, ..s })
    &&& said matches Said::Warning(w) && w@ == warning
}

/// The stage after the last question on the model.
pub open spec fn last_stage(s: Setup, providers: ProvidersConfig, models: ModelsConfig) -> Stage {
    if collisions(providers, models, s.provider_name@, s.model_name@).len() > 0 {
        Stage::Replace
    } else {
        Stage::Save
    }
}

/// What becomes of a setup with an answer, and what is said.
pub open spec fn answered(
    s: Setup,
    a: Answer,
    providers: ProvidersConfig,
    models: ModelsConfig,
    t: Setup,
    said: Said,
) -> bool {
    match (s.stage, a) {
        (Stage::ProviderName, Answer::Text(v)) => if blank(v@) {
            again(s, t, said, "a value is required; try again"@)
        } else {
            said is Nothing && t == (Setup { stage: Stage::BaseUrl, provider_name: v, ..s })
        },
        (Stage::BaseUrl, Answer::Url { value, expanded }) => match expanded {
            Err(e) => again(s, t, said, e@ + "; try again"@),
            Ok(url) => match endpoint_fault(url_parts(url@)) {
                Some(e) => again(s, t, said, e + "; try again"@),
                None => said is Nothing && t == (Setup {
                    stage: Stage::ApiKey,
                    base_url: value,
                    ..s
                }),
            },
        },
        (Stage::ApiKey, Answer::Text(v)) => if blank(v@) {
            again(s, t, said, "an API key is required; try again"@)
        } else {
            &&& said is Nothing
            &&& t == (Setup { stage: Stage::Catalogue, api_key: t.api_key, ..s })
            &&& t.api_key@ == trim(v@)
        },
        (Stage::Catalogue, Answer::Catalogue(c)) => match c {
            CatalogueReply::Failed => by_hand(
                s,
                t,
                said,
                "the endpoint did not provide a usable catalogue; enter a model id manually"@,
            ),
            CatalogueReply::TimedOut => by_hand(
                s,
                t,
                said,
                "catalogue lookup timed out; enter a model id manually"@,
            ),
            CatalogueReply::Entries(entries) => if offers(entries@, seq![]) {
                by_hand(
                    s,
                    t,
                    said,
                    "the endpoint returned no chat models; enter a model id manually"@,
                )
            } else {
                &&& t == (Setup { stage: Stage::PickId, offered: t.offered, ..s })
                &&& offers(entries@, strs(t.offered@))
                &&& said matches Said::Lines(lines) && strs(lines@) == offer_lines(
                    strs(t.offered@),
                    t.offered@.len() as int,
                )
            },
        },
        (Stage::PickId, Answer::Text(v)) => match picked_number(v@) {
            Some(n) => if 1 <= n <= s.offered@.len() {
                &&& said is Nothing
                &&& t == (Setup { stage: Stage::Known, model_id: t.model_id, ..s })
                &&& t.model_id@ == s.offered@[n - 1]@
            } else {
                again(s, t, said, "that catalogue number is not available; try again"@)
            },
            None => if blank(v@) {
                again(s, t, said, "a model id is required; try again"@)
            } else {
                &&& said is Nothing
                &&& t == (Setup { stage: Stage::Known, model_id: t.model_id, ..s })
                &&& t.model_id@ == v@
            },
        },
        (Stage::ManualId, Answer::Text(v)) => if blank(v@) {
            again(s, t, said, "a value is required; try again"@)
        } else {
            said is Nothing && t == (Setup { stage: Stage::Known, model_id: v, ..s })
        },
        (Stage::Known, Answer::Known(d)) => said is Nothing && t == (Setup {
            stage: Stage::ModelName,
            known: d,
            ..s
        }),
        (Stage::ModelName, Answer::Text(v)) => if blank(v@) {
            again(s, t, said, "a value is required; try again"@)
        } else {
            said is Nothing && t == (Setup { stage: Stage::Advanced, model_name: v, ..s })
        },
        (Stage::Advanced, Answer::Confirmed(yes)) => said is Nothing && t == (Setup {
            stage: if yes {
                Stage::Temperature
            } else {
                last_stage(s, providers, models)
            },
            ..s
        }),
        (Stage::Temperature, Answer::Temperature(v)) => match v {
            Err(e) => again(s, t, said, e@ + "; try again"@),
            Ok(bits) => said is Nothing && t == (Setup {
                stage: Stage::MaxTokens,
                tuning: Tuning { temperature_bits: Some(bits), ..s.tuning },
                ..s
            }),
        },
        (Stage::MaxTokens, Answer::Text(v)) => match natural(v@) {
            Some(n) => if 0 < n <= u32::MAX {
                said is Nothing && t == (Setup {
                    stage: Stage::ContextWindow,
                    tuning: Tuning { max_tokens: Some(n as u32), ..s.tuning },
                    ..s
                })
            } else {
                again(s, t, said, "enter a positive whole number; try again"@)
            },
            None => again(s, t, said, "enter a positive whole number; try again"@),
        },
        (Stage::ContextWindow, Answer::Text(v)) => match natural(v@) {
            Some(n) => if 0 < n <= u32::MAX {
                said is Nothing && t == (Setup {
                    stage: Stage::Reasoning,
                    tuning: Tuning { context_window: Some(n as u32), ..s.tuning },
                    ..s
                })
            } else {
                again(s, t, said, "enter a positive whole number; try again"@)
            },
            None => again(s, t, said, "enter a positive whole number; try again"@),
        },
        (Stage::Reasoning, Answer::Text(v)) => match effort_of(lower(v@)) {
            Some(e) => said is Nothing && t == (Setup {
                stage: last_stage(s, providers, models),
                tuning: Tuning { reasoning: Some(e), ..s.tuning },
                ..s
            }),
            None => again(
                s,
                t,
                said,
                "invalid reasoning effort "@ + quoted(lower(v@))
                    + " (none|minimal|low|medium|high)"@ + "; try again"@,
            ),
        },
        (Stage::Replace, Answer::Confirmed(yes)) => said is Nothing && t == (Setup {
            stage: if yes {
                Stage::Save
            } else {
                Stage::Declined
            },
            ..s
        }),
        _ => said is Nothing && t == s,
    }
}

fn retry(error: &str) -> (r: Said)
    ensures
        r matches Said::Warning(w) && w@ == error@ + "; try again"@,
{
    let mut w = error.to_owned();
    w.push_str("; try again");
    Said::Warning(w)
}

/// A warning that is put together from two literals reads as one.
proof fn lemma_tries_again()
    ensures
        "a value is required"@ + "; try again"@ == "a value is required; try again"@,
        "enter a positive whole number"@ + "; try again"@
            == "enter a positive whole number; try again"@,
{
    reveal_strlit("a value is required");
    reveal_strlit("enter a positive whole number");
    reveal_strlit("; try again");
    reveal_strlit("a value is required; try again");
    reveal_strlit("enter a positive whole number; try again");
    assert("a value is required"@ + "; try again"@ =~= "a value is required; try again"@);
    assert("enter a positive whole number"@ + "; try again"@
        =~= "enter a positive whole number; try again"@);
}

fn text(label: &'static str, default: &str) -> (r: Question)
    ensures
        asks(r, label@, Some(default@)),
{
    Question::Text { label, default: Some(default.to_owned()) }
}

fn offer(offered: &Vec<String>) -> (r: Vec<String>)
    requires
        offered@.len() < usize::MAX,
    ensures
        strs(r@) == offer_lines(strs(offered@), offered@.len() as int),
{
    let mut out: Vec<String> = Vec::new();
    assert(strs(out@) =~= seq![]);
    push_text(&mut out, "Choose a model, or enter its provider id manually:".to_owned());
    assert(strs(out@) =~= seq!["Choose a model, or enter its provider id manually:"@]);
    let mut i: usize = 0;
    while i < offered.len()
        invariant
            i <= offered@.len() < usize::MAX,
            strs(out@) == offer_lines(strs(offered@), i as int),
        decreases offered.len() - i,
    {
        push_text(&mut out, catalogue_line(i, &offered[i]));
        i = i + 1;
    }
    out
}

impl Setup {
    /// Nothing was entered, offered or looked up yet.
    pub open spec fn is_empty(&self) -> bool {
        &&& self.provider_name@ == Seq::<char>::empty()
        &&& self.base_url@ == Seq::<char>::empty()
        &&& self.api_key@ == Seq::<char>::empty()
        &&& self.offered@ == Seq::<String>::empty()
        &&& self.model_id@ == Seq::<char>::empty()
        &&& self.model_name@ == Seq::<char>::empty()
        &&& self.known == (Defaults {
            name: self.known.name,
            temperature_bits: 0,
            max_tokens: 0,
            context_window: 0,
            reasoning_effort: None,
            input_cost_bits: None,
            output_cost_bits: None,
            cached_input_cost_bits: None,
        })
        &&& self.known.name@ == Seq::<char>::empty()
    }

    /// A setup before its first question.
    pub fn new() -> (r: Setup)
        ensures
            r.stage == Stage::ProviderName,
            r.is_empty(),
            r.tuning == (Tuning {
                temperature_bits: None,
                max_tokens: None,
                context_window: None,
                reasoning: None,
            }),
            entered(r),
    {
        Setup {
            stage: Stage::ProviderName,
            provider_name: String::new(),
            base_url: String::new(),
            api_key: String::new(),
            offered: Vec::new(),
            model_id: String::new(),
            known: Defaults {
                name: String::new(),
                temperature_bits: 0,
                max_tokens: 0,
                context_window: 0,
                reasoning_effort: None,
                input_cost_bits: None,
                output_cost_bits: None,
                cached_input_cost_bits: None,
            },
            model_name: String::new(),
            tuning: Tuning {
                temperature_bits: None,
                max_tokens: None,
                context_window: None,
                reasoning: None,
            },
        }
    }

    /// What is asked or done next, with the providers and models that there are.
    pub fn question(&self, providers: &ProvidersConfig, models: &ModelsConfig) -> (r: Question)
        ensures
            question_of(*self, *providers, *models, r),
    {
        match self.stage {
            Stage::ProviderName => text("Provider name", "default"),
            Stage::BaseUrl => Question::Text {
                label: "Endpoint base URL (e.g. https://host/v1)",
                default: None,
            },
            Stage::ApiKey => {
                let mut label = "API key for ".to_owned();
                label.push_str(&self.provider_name);
                Question::Secret { label }
            },
            Stage::Catalogue => Question::Catalogue,
            Stage::PickId => Question::Text { label: "Model number or id", default: None },
            Stage::ManualId => Question::Text { label: "Model id", default: None },
            Stage::Known => Question::Known { id: self.model_id.clone() },
            Stage::ModelName => text("Model name", &self.known.name),
            Stage::Advanced => Question::Confirm { text: "Configure advanced model tuning?" },
            Stage::Temperature => Question::Temperature {
                default_bits: self.known.temperature_bits,
            },
            Stage::MaxTokens => text(
                "Max output tokens",
                &decimal(self.known.max_tokens as u128),
            ),
            Stage::ContextWindow => text(
                "Context window",
                &decimal(self.known.context_window as u128),
            ),
            Stage::Reasoning => text("Reasoning effort", effort_name(self.known.reasoning_effort)),
            Stage::Replace => Question::Destroy {
                text: replace_question(
                    &replaced(providers, models, &self.provider_name, &self.model_name),
                ),
            },
            Stage::Save => Question::Save,
            Stage::Declined => Question::Nothing,
        }
    }

    fn last(&self, providers: &ProvidersConfig, models: &ModelsConfig) -> (r: Stage)
        ensures
            r == last_stage(*self, *providers, *models),
    {
        let found = replaced(providers, models, &self.provider_name, &self.model_name);
        assert(strs(found@).len() == found@.len());
        if found.len() > 0 {
            Stage::Replace
        } else {
            Stage::Save
        }
    }

    /// Takes an answer: the next stage, or the same once more with a warning. An answer to
    /// another question changes nothing.
    pub fn answer(
        self,
        a: Answer,
        providers: &ProvidersConfig,
        models: &ModelsConfig,
    ) -> (r: (Setup, Said))
        ensures
            answered(self, a, *providers, *models, r.0, r.1),
    {
        proof {
            lemma_tries_again();
        }
        let mut s = self;
        match (s.stage, a) {
            (Stage::ProviderName, Answer::Text(v)) => {
                match valid_name(&v) {
                    Err(e) => {
                        return (s, retry(&e));
                    },
                    Ok(()) => {
                        s.provider_name = v;
                        s.stage = Stage::BaseUrl;
                    },
                }
            },
            (Stage::BaseUrl, Answer::Url { value, expanded }) => {
                match validate_base_url(&expanded) {
                    Err(e) => {
                        return (s, retry(&e));
                    },
                    Ok(()) => {
                        s.base_url = value;
                        s.stage = Stage::ApiKey;
                    },
                }
            },
            (Stage::ApiKey, Answer::Text(v)) => {
                if is_blank(&v) {
                    return (s, Said::Warning("an API key is required; try again".to_owned()));
                }
                s.api_key = trimmed(&v);
                s.stage = Stage::Catalogue;
            },
            (Stage::Catalogue, Answer::Catalogue(c)) => {
                return s.take_catalogue(c);
            },
            (Stage::PickId, Answer::Text(v)) => {
                match pick_model(&s.offered, &v) {
                    Pick::Model(id) => {
                        s.model_id = id;
                        s.stage = Stage::Known;
                    },
                    Pick::NoSuchNumber => {
                        return (
                            s,
                            Said::Warning(
                                "that catalogue number is not available; try again".to_owned(),
                            ),
                        );
                    },
                    Pick::Missing => {
                        return (s, Said::Warning("a model id is required; try again".to_owned()));
                    },
                }
            },
            (Stage::ManualId, Answer::Text(v)) => {
                match valid_name(&v) {
                    Err(e) => {
                        return (s, retry(&e));
                    },
                    Ok(()) => {
                        s.model_id = v;
                        s.stage = Stage::Known;
                    },
                }
            },
            (Stage::Known, Answer::Known(d)) => {
                s.known = d;
                s.stage = Stage::ModelName;
            },
            (Stage::ModelName, Answer::Text(v)) => {
                match valid_name(&v) {
                    Err(e) => {
                        return (s, retry(&e));
                    },
                    Ok(()) => {
                        s.model_name = v;
                        s.stage = Stage::Advanced;
                    },
                }
            },
            (Stage::Advanced, Answer::Confirmed(yes)) => {
                s.stage = if yes {
                    Stage::Temperature
                } else {
                    s.last(providers, models)
                };
            },
            (Stage::Temperature, Answer::Temperature(v)) => {
                match v {
                    Err(e) => {
                        return (s, retry(&e));
                    },
                    Ok(bits) => {
                        s.tuning.temperature_bits = Some(bits);
                        s.stage = Stage::MaxTokens;
                    },
                }
            },
            (Stage::MaxTokens, Answer::Text(v)) => {
                match parse_positive_u32(&v) {
                    Err(e) => {
                        return (s, retry(&e));
                    },
                    Ok(n) => {
                        s.tuning.max_tokens = Some(n);
                        s.stage = Stage::ContextWindow;
                    },
                }
            },
            (Stage::ContextWindow, Answer::Text(v)) => {
                match parse_positive_u32(&v) {
                    Err(e) => {
                        return (s, retry(&e));
                    },
                    Ok(n) => {
                        s.tuning.context_window = Some(n);
                        s.stage = Stage::Reasoning;
                    },
                }
            },
            (Stage::Reasoning, Answer::Text(v)) => {
                match parse_reasoning(&v) {
                    Err(e) => {
                        return (s, retry(&e));
                    },
                    Ok(effort) => {
                        s.tuning.reasoning = Some(effort);
                        s.stage = s.last(providers, models);
                    },
                }
            },
            (Stage::Replace, Answer::Confirmed(yes)) => {
                s.stage = if yes {
                    Stage::Save
                } else {
                    Stage::Declined
                };
            },
            _ => {},
        }
        (s, Said::Nothing)
    }

    fn take_catalogue(self, c: CatalogueReply) -> (r: (Setup, Said))
        requires
            self.stage == Stage::Catalogue,
        ensures
            forall|p: ProvidersConfig, m: ModelsConfig|
                answered(self, Answer::Catalogue(c), p, m, r.0, r.1),
    {
        let mut s = self;
        match c {
            CatalogueReply::Failed => {
                s.stage = Stage::ManualId;
                (
                    s,
                    Said::Warning(
                        "the endpoint did not provide a usable catalogue; enter a model id manually".to_owned(),
                    ),
                )
            },
            CatalogueReply::TimedOut => {
                s.stage = Stage::ManualId;
                (
                    s,
                    Said::Warning(
                        "catalogue lookup timed out; enter a model id manually".to_owned(),
                    ),
                )
            },
            CatalogueReply::Entries(entries) => {
                let offered = catalogue(&entries);
                proof {
                    lemma_offers_nothing(entries@, strs(offered@));
                    assert(strs(offered@).len() == offered@.len());
                }
                if offered.len() == 0 {
                    s.stage = Stage::ManualId;
                    (
                        s,
                        Said::Warning(
                            "the endpoint returned no chat models; enter a model id manually".to_owned(),
                        ),
                    )
                } else {
                    let lines = offer(&offered);
                    s.offered = offered;
                    s.stage = Stage::PickId;
                    (s, Said::Lines(lines))
                }
            },
        }
    }

    /// What a setup that is to be saved comes to.
    pub fn plan(self) -> (r: SetupPlan)
        ensures
            r.provider_name == self.provider_name,
            r.provider.base_url == self.base_url,
            r.provider.api_key == self.api_key,
            r.provider.headers@.len() == 0,
            r.model_name == self.model_name,
            fresh_model(r.model, self.provider_name@, self.model_id@, self.known, self.tuning),
    {
        let s = self;
        let model = new_model(s.provider_name.clone(), s.model_id, &s.known, &s.tuning);
        SetupPlan {
            provider_name: s.provider_name,
            provider: Provider { base_url: s.base_url, api_key: s.api_key, headers: Vec::new() },
            model_name: s.model_name,
            model,
        }
    }
}

/// Nothing is offered where, and only where, there is no model for chat.
proof fn lemma_offers_nothing(entries: Seq<(String, bool)>, offered: Seq<Seq<char>>)
    requires
        offers(entries, offered),
    ensures
        offers(entries, seq![]) <==> offered.len() == 0,
{
    if offered.len() == 0 {
        assert(offered =~= seq![]);
    } else {
        assert(crate::models::chat_model(entries, offered[0]));
        let none: Seq<Seq<char>> = seq![];
        assert(!none.contains(offered[0]));
    }
}

/// What is said once a setup is saved.
pub fn saved_lines(provider: &str, model: &str, providers_path: &str, models_path: &str) -> (r: Vec<
    String,
>)
    ensures
        strs(r@) == seq![
            "saved provider `"@ + provider@ + "` and model `"@ + model@ + "`"@,
            "  credentials: "@ + providers_path@ + " (mode 0600)"@,
            "  models: "@ + models_path@,
            "\nDone — you can run `cowboy` now."@,
            "  review it with `cowboy models`, or verify the host with `cowboy doctor`"@,
        ],
{
    let mut a = "saved provider `".to_owned();
    a.push_str(provider);
    a.push_str("` and model `");
    a.push_str(model);
    a.push_str("`");
    let mut b = "  credentials: ".to_owned();
    b.push_str(providers_path);
    b.push_str(" (mode 0600)");
    let mut c = "  models: ".to_owned();
    c.push_str(models_path);
    let mut out: Vec<String> = Vec::new();
    out.push(a);
    out.push(b);
    out.push(c);
    out.push("\nDone — you can run `cowboy` now.".to_owned());
    out.push("  review it with `cowboy models`, or verify the host with `cowboy doctor`".to_owned());
    assert(strs(out@) =~= seq![
        a@,
        b@,
        c@,
        "\nDone — you can run `cowboy` now."@,
        "  review it with `cowboy models`, or verify the host with `cowboy doctor`"@,
    ]);
    out
}

// ---------------------------------------------------------------------------
// Laws
// ---------------------------------------------------------------------------

/// How far a stage is.
pub open spec fn rank(s: Stage) -> int {
    match s {
        Stage::ProviderName => 0,
        Stage::BaseUrl => 1,
        Stage::ApiKey => 2,
        Stage::Catalogue => 3,
        Stage::PickId => 4,
        Stage::ManualId => 4,
        Stage::Known => 5,
        Stage::ModelName => 6,
        Stage::Advanced => 7,
        Stage::Temperature => 8,
        Stage::MaxTokens => 9,
        Stage::ContextWindow => 10,
        Stage::Reasoning => 11,
        Stage::Replace => 12,
        Stage::Save => 13,
        Stage::Declined => 13,
    }
}

/// What has been asked for has been entered: a name for the provider, a key, a name for
/// the model, and numbers that are positive.
pub open spec fn entered(s: Setup) -> bool {
    &&& rank(s.stage) > 0 ==> !blank(s.provider_name@)
    &&& rank(s.stage) > 2 ==> !blank(s.api_key@)
    &&& rank(s.stage) > 6 ==> !blank(s.model_name@)
    &&& s.tuning.max_tokens matches Some(n) ==> n > 0
    &&& s.tuning.context_window matches Some(n) ==> n > 0
}

/// No stage is passed without what it asks for: whatever is answered, what a setup goes
/// on to save was entered.
pub proof fn what_is_saved_was_entered(
    s: Setup,
    a: Answer,
    providers: ProvidersConfig,
    models: ModelsConfig,
    t: Setup,
    said: Said,
)
    requires
        entered(s),
        answered(s, a, providers, models, t, said),
    ensures
        entered(t),
        rank(t.stage) >= rank(s.stage),
{
    if s.stage == Stage::ApiKey && a is Text {
        let v = a->Text_0@;
        crate::text::lemma_trim_blank(v);
        lemma_trim_end_ends(trim_start(v));
    }
}

/// What is left of a text without its trailing white space ends in none.
proof fn lemma_trim_end_ends(s: Seq<char>)
    ensures
        trim_end(s).len() > 0 ==> !is_ws(trim_end(s)[trim_end(s).len() - 1]),
    decreases s.len(),
{
    if s.len() > 0 && is_ws(s.last()) {
        lemma_trim_end_ends(s.drop_last());
    }
}

/// Nothing is replaced unasked: a setup comes to be saved only where nothing of its
/// names is there, or where the user has just agreed.
pub proof fn nothing_is_replaced_unasked(
    s: Setup,
    a: Answer,
    providers: ProvidersConfig,
    models: ModelsConfig,
    t: Setup,
    said: Said,
)
    requires
        answered(s, a, providers, models, t, said),
        s.stage != Stage::Save,
        t.stage == Stage::Save,
    ensures
        collisions(providers, models, t.provider_name@, t.model_name@).len() == 0 || (s.stage
            == Stage::Replace && a == Answer::Confirmed(true)),
{
}

/// An answer that is not understood changes nothing, and is asked for again with a warning:
/// a name or an id that is blank, an endpoint that is refused, a number that is none, an
/// effort that there is no word for.
pub proof fn wrong_answers_are_asked_again(
    s: Setup,
    v: String,
    providers: ProvidersConfig,
    models: ModelsConfig,
    t: Setup,
    said: Said,
)
    requires
        answered(s, Answer::Text(v), providers, models, t, said),
        ({
            ||| blank(v@) && (s.stage == Stage::ProviderName || s.stage == Stage::ApiKey || s.stage
                == Stage::ManualId || s.stage == Stage::ModelName)
            ||| (s.stage == Stage::MaxTokens || s.stage == Stage::ContextWindow) && (natural(
                v@,
            ) is None || natural(v@)->0 == 0 || natural(v@)->0 > u32::MAX)
            ||| s.stage == Stage::Reasoning && effort_of(lower(v@)) is None
            ||| s.stage == Stage::PickId && (picked_number(v@) matches Some(n) && !(1 <= n
                <= s.offered@.len()))
        }),
    ensures
        t == s,
        said is Warning,
{
}

/// An answer that is understood is kept as it was given, and the next question follows:
/// the provider's name, its endpoint and its key, which is kept without the white space
/// around it, the model and its name.
pub proof fn answers_are_kept(
    s: Setup,
    v: String,
    providers: ProvidersConfig,
    models: ModelsConfig,
    t: Setup,
    said: Said,
)
    requires
        answered(s, Answer::Text(v), providers, models, t, said),
        !blank(v@),
    ensures
        s.stage == Stage::ProviderName ==> t.provider_name == v && t.stage == Stage::BaseUrl,
        s.stage == Stage::ApiKey ==> t.api_key@ == trim(v@) && t.stage == Stage::Catalogue,
        s.stage == Stage::ManualId ==> t.model_id == v && t.stage == Stage::Known,
        s.stage == Stage::PickId && (picked_number(v@) matches Some(n) && 1 <= n <= s.offered@.len())
            ==> t.model_id@ == s.offered@[picked_number(v@)->0 - 1]@ && t.stage == Stage::Known,
        s.stage == Stage::PickId && picked_number(v@) is None ==> t.model_id@ == v@ && t.stage
            == Stage::Known,
        s.stage == Stage::ModelName ==> t.model_name == v && t.stage == Stage::Advanced,
        s.stage == Stage::MaxTokens && (natural(v@) matches Some(n) && 0 < n <= u32::MAX) ==> t.stage
            == Stage::ContextWindow && (t.tuning.max_tokens matches Some(m) && m == natural(v@)->0),
        s.stage == Stage::ContextWindow && (natural(v@) matches Some(n) && 0 < n <= u32::MAX)
            ==> t.stage == Stage::Reasoning && (t.tuning.context_window matches Some(m) && m
            == natural(v@)->0),
{
}

} // verus!
