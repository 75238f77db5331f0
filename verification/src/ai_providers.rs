//! Built-in AI provider presets and model catalogs (OpenAI-compatible endpoints).
use vstd::prelude::*;

use vstd::string::StrSliceExecFns;

use crate::text::{self, chars_of, string_of, trim_str, trim_exec, eq_ignore_case_exec, lower_exec, chars_eq, chars_eq_str, contains_exec, str_eq};

verus! {

/// One provider preset: its id, the label shown in the picker, the endpoint
/// used when none is configured, the environment variables that may hold the
/// API key (in lookup order) and the catalog of suggested models.
#[derive(Debug, Clone)]
pub struct ProviderPreset {
    pub id: &'static str,
    pub label: &'static str,
    pub default_base_url: &'static str,
    pub env_keys: Vec<&'static str>,
    pub models: Vec<&'static str>,
}

/// A preset as plain text values.
pub struct PresetView {
    pub id: Seq<char>,
    pub label: Seq<char>,
    pub default_base_url: Seq<char>,
    pub env_keys: Seq<Seq<char>>,
    pub models: Seq<Seq<char>>,
}

pub open spec fn strs_view(v: Seq<&'static str>) -> Seq<Seq<char>> {
    v.map_values(|s: &'static str| s@)
}

impl View for ProviderPreset {
    type V = PresetView;

    open spec fn view(&self) -> PresetView {
        PresetView {
            id: self.id@,
            label: self.label@,
            default_base_url: self.default_base_url@,
            env_keys: strs_view(self.env_keys@),
            models: strs_view(self.models@),
        }
    }
}

/// The built-in presets, in picker order.
pub open spec fn spec_presets() -> Seq<PresetView> {
    seq![
        PresetView {
            id: "openai"@,
            label: "OpenAI"@,
            default_base_url: "https://api.openai.com/v1"@,
            env_keys: seq!["OPENAI_API_KEY"@, "DEVFORGE_AI_API_KEY"@],
            models: seq!["gpt-4.1"@, "gpt-4o"@, "gpt-4o-mini"@, "o4-mini"@, "o3-mini"@],
        },
        PresetView {
            id: "openrouter"@,
            label: "OpenRouter"@,
            default_base_url: "https://openrouter.ai/api/v1"@,
            env_keys: seq!["OPENROUTER_API_KEY"@, "DEVFORGE_AI_API_KEY"@],
            models: seq![
                "openai/gpt-4o"@,
                "google/gemini-2.0-flash-001"@,
                "x-ai/grok-2"@,
                "nousresearch/hermes-3-llama-3.1-405b"@,
            ],
        },
        PresetView {
            id: "anthropic"@,
            label: "Anthropic (via OpenAI-compat / OpenRouter)"@,
            default_base_url: "https://openrouter.ai/api/v1"@,
            env_keys: seq!["OPENROUTER_API_KEY"@, "ANTHROPIC_API_KEY"@, "DEVFORGE_AI_API_KEY"@],
            models: Seq::empty(),
        },
        PresetView {
            id: "gemini"@,
            label: "Google Gemini"@,
            default_base_url: "https://generativelanguage.googleapis.com/v1beta/openai"@,
            env_keys: seq!["GEMINI_API_KEY"@, "GOOGLE_API_KEY"@, "DEVFORGE_AI_API_KEY"@],
            models: seq![
                "gemini-2.0-flash"@,
                "gemini-2.0-flash-lite"@,
                "gemini-1.5-pro"@,
                "gemini-1.5-flash"@,
            ],
        },
        PresetView {
            id: "grok"@,
            label: "Grok (xAI)"@,
            default_base_url: "https://api.x.ai/v1"@,
            env_keys: seq!["XAI_API_KEY"@, "DEVFORGE_AI_API_KEY"@],
            models: seq!["grok-2"@, "grok-2-vision-1212"@, "grok-3"@],
        },
        PresetView {
            id: "hermes"@,
            label: "Hermes (Nous / OpenRouter)"@,
            default_base_url: "https://openrouter.ai/api/v1"@,
            env_keys: seq!["OPENROUTER_API_KEY"@, "DEVFORGE_AI_API_KEY"@],
            models: seq![
                "nousresearch/hermes-3-llama-3.1-405b"@,
                "nousresearch/hermes-3-llama-3.1-70b"@,
                "nousresearch/hermes-2-pro-llama-3-8b"@,
            ],
        },
        PresetView {
            id: "ollama"@,
            label: "Ollama (local)"@,
            default_base_url: "http://127.0.0.1:11434/v1"@,
            env_keys: Seq::empty(),
            models: seq!["llama3.2"@, "llama3.1"@, "qwen2.5-coder"@, "mistral"@, "codellama"@],
        },
        PresetView {
            id: "openai-compatible"@,
            label: "Custom OpenAI-compatible"@,
            default_base_url: "https://api.openai.com/v1"@,
            env_keys: seq!["DEVFORGE_AI_API_KEY"@, "OPENAI_API_KEY"@],
            models: seq!["gpt-4o-mini"@, "llama3.2"@],
        },
    ]
}

/// The built-in presets.
pub fn provider_presets() -> (r: Vec<ProviderPreset>)
    ensures
        r@.map_values(|p: ProviderPreset| p@) == spec_presets(),
{
    let r = vec![
        ProviderPreset {
            id: "openai",
            label: "OpenAI",
            default_base_url: "https://api.openai.com/v1",
            env_keys: vec!["OPENAI_API_KEY", "DEVFORGE_AI_API_KEY"],
            models: vec!["gpt-4.1", "gpt-4o", "gpt-4o-mini", "o4-mini", "o3-mini"],
        },
        ProviderPreset {
            id: "openrouter",
            label: "OpenRouter",
            default_base_url: "https://openrouter.ai/api/v1",
            env_keys: vec!["OPENROUTER_API_KEY", "DEVFORGE_AI_API_KEY"],
            models: vec![
                "openai/gpt-4o",
                "google/gemini-2.0-flash-001",
                "x-ai/grok-2",
                "nousresearch/hermes-3-llama-3.1-405b",
            ],
        },
        ProviderPreset {
            id: "anthropic",
            label: "Anthropic (via OpenAI-compat / OpenRouter)",
            default_base_url: "https://openrouter.ai/api/v1",
            env_keys: vec!["OPENROUTER_API_KEY", "ANTHROPIC_API_KEY", "DEVFORGE_AI_API_KEY"],
            models: Vec::new(),
        },
        ProviderPreset {
            id: "gemini",
            label: "Google Gemini",
            default_base_url: "https://generativelanguage.googleapis.com/v1beta/openai",
            env_keys: vec!["GEMINI_API_KEY", "GOOGLE_API_KEY", "DEVFORGE_AI_API_KEY"],
            models: vec![
                "gemini-2.0-flash",
                "gemini-2.0-flash-lite",
                "gemini-1.5-pro",
                "gemini-1.5-flash",
            ],
        },
        ProviderPreset {
            id: "grok",
            label: "Grok (xAI)",
            default_base_url: "https://api.x.ai/v1",
            env_keys: vec!["XAI_API_KEY", "DEVFORGE_AI_API_KEY"],
            models: vec!["grok-2", "grok-2-vision-1212", "grok-3"],
        },
        ProviderPreset {
            id: "hermes",
            label: "Hermes (Nous / OpenRouter)",
            default_base_url: "https://openrouter.ai/api/v1",
            env_keys: vec!["OPENROUTER_API_KEY", "DEVFORGE_AI_API_KEY"],
            models: vec![
                "nousresearch/hermes-3-llama-3.1-405b",
                "nousresearch/hermes-3-llama-3.1-70b",
                "nousresearch/hermes-2-pro-llama-3-8b",
            ],
        },
        ProviderPreset {
            id: "ollama",
            label: "Ollama (local)",
            default_base_url: "http://127.0.0.1:11434/v1",
            env_keys: Vec::new(),
            models: vec!["llama3.2", "llama3.1", "qwen2.5-coder", "mistral", "codellama"],
        },
        ProviderPreset {
            id: "openai-compatible",
            label: "Custom OpenAI-compatible",
            default_base_url: "https://api.openai.com/v1",
            env_keys: vec!["DEVFORGE_AI_API_KEY", "OPENAI_API_KEY"],
            models: vec!["gpt-4o-mini", "llama3.2"],
        },
    ];
    proof {
        let ps = spec_presets();
        assert(strs_view(r@[0].env_keys@) =~= ps[0].env_keys);
        assert(strs_view(r@[0].models@) =~= ps[0].models);
        assert(strs_view(r@[1].env_keys@) =~= ps[1].env_keys);
        assert(strs_view(r@[1].models@) =~= ps[1].models);
        assert(strs_view(r@[2].env_keys@) =~= ps[2].env_keys);
        assert(strs_view(r@[2].models@) =~= ps[2].models);
        assert(strs_view(r@[3].env_keys@) =~= ps[3].env_keys);
        assert(strs_view(r@[3].models@) =~= ps[3].models);
        assert(strs_view(r@[4].env_keys@) =~= ps[4].env_keys);
        assert(strs_view(r@[4].models@) =~= ps[4].models);
        assert(strs_view(r@[5].env_keys@) =~= ps[5].env_keys);
        assert(strs_view(r@[5].models@) =~= ps[5].models);
        assert(strs_view(r@[6].env_keys@) =~= ps[6].env_keys);
        assert(strs_view(r@[6].models@) =~= ps[6].models);
        assert(strs_view(r@[7].env_keys@) =~= ps[7].env_keys);
        assert(strs_view(r@[7].models@) =~= ps[7].models);
        assert(r@.map_values(|p: ProviderPreset| p@) =~= ps);
    }
    r
}


/// The first preset whose id equals `key`, ignoring ASCII case.
pub open spec fn find_preset(ps: Seq<PresetView>, key: Seq<char>) -> Option<PresetView>
    decreases ps.len(),
{
    if ps.len() == 0 {
        None
    } else if text::eq_ignore_case(ps[0].id, key) {
        Some(ps[0])
    } else {
        find_preset(ps.drop_first(), key)
    }
}

proof fn lemma_find_preset_at(ps: Seq<PresetView>, key: Seq<char>, i: int)
    requires
        0 <= i < ps.len(),
        text::eq_ignore_case(ps[i].id, key),
        forall|j: int| 0 <= j < i ==> !text::eq_ignore_case(#[trigger] ps[j].id, key),
    ensures
        find_preset(ps, key) == Some(ps[i]),
    decreases i,
{
    if i > 0 {
        let t = ps.drop_first();
        assert forall|j: int| 0 <= j < i - 1 implies !text::eq_ignore_case(#[trigger] t[j].id, key) by {
            assert(t[j] == ps[j + 1]);
        }
        assert(!text::eq_ignore_case(ps[0].id, key));
        assert(t[i - 1] == ps[i]);
        lemma_find_preset_at(t, key, i - 1);
    }
}

/// Every built-in preset is found again by its own id.
pub proof fn law_preset_found_by_id(i: int)
    requires
        0 <= i < spec_presets().len(),
    ensures
        spec_provider_preset(spec_presets()[i].id) == Some(spec_presets()[i]),
{
    let ps = spec_presets();
    reveal_strlit("openai");
    reveal_strlit("openrouter");
    reveal_strlit("anthropic");
    reveal_strlit("gemini");
    reveal_strlit("grok");
    reveal_strlit("hermes");
    reveal_strlit("ollama");
    reveal_strlit("openai-compatible");
    assert("openai"@.len() == 6);
    assert("openrouter"@.len() == 10);
    assert("anthropic"@.len() == 9);
    assert("gemini"@.len() == 6);
    assert("grok"@.len() == 4);
    assert("hermes"@.len() == 6);
    assert("ollama"@.len() == 6);
    assert("openai-compatible"@.len() == 17);
    assert("openai"@[0] != "gemini"@[0]);
    assert("openai"@[0] != "hermes"@[0]);
    assert("openai"@[1] != "ollama"@[1]);
    assert("gemini"@[0] != "hermes"@[0]);
    assert("gemini"@[0] != "ollama"@[0]);
    assert("hermes"@[0] != "ollama"@[0]);
    text::lemma_plain_trim_lower(ps[0].id);
    text::lemma_plain_trim_lower(ps[1].id);
    text::lemma_plain_trim_lower(ps[2].id);
    text::lemma_plain_trim_lower(ps[3].id);
    text::lemma_plain_trim_lower(ps[4].id);
    text::lemma_plain_trim_lower(ps[5].id);
    text::lemma_plain_trim_lower(ps[6].id);
    text::lemma_plain_trim_lower(ps[7].id);
    assert forall|j: int| 0 <= j < ps.len() implies text::lower(#[trigger] ps[j].id) == ps[j].id
        && text::trim(ps[j].id) == ps[j].id by {
        if j == 0 {} else if j == 1 {} else if j == 2 {} else if j == 3 {} else if j == 4 {}
        else if j == 5 {} else if j == 6 {} else {}
    }
    assert forall|j: int| 0 <= j < i implies !text::eq_ignore_case(#[trigger] ps[j].id, ps[i].id) by {
        assert(ps[j].id != ps[i].id);
    }
    lemma_find_preset_at(ps, ps[i].id, i);
}

pub open spec fn spec_provider_preset(id: Seq<char>) -> Option<PresetView> {
    find_preset(spec_presets(), text::trim(id))
}

/// The preset whose id matches `id` (surrounding whitespace and ASCII case
/// ignored).
pub fn provider_preset(id: &str) -> (r: Option<ProviderPreset>)
    ensures
        match r {
            Some(p) => spec_provider_preset(id@) == Some(p@),
            None => spec_provider_preset(id@) is None,
        },
{
    let key = trim_str(id);
    let mut table = provider_presets();
    let ghost all = table@.map_values(|p: ProviderPreset| p@);
    let mut i: usize = 0;
    assert(all.skip(0) =~= all);
    while i < table.len()
        invariant
            i <= table.len(),
            key@ == text::trim(id@),
            all == spec_presets(),
            all == table@.map_values(|p: ProviderPreset| p@),
            find_preset(all.skip(i as int), key@) == find_preset(all, key@),
        decreases table.len() - i,
    {
        let pid = chars_of(table[i].id);
        assert(all.skip(i as int)[0] == table@[i as int]@);
        assert(all.skip(i as int).drop_first() =~= all.skip(i + 1));
        if eq_ignore_case_exec(&pid, &key) {
            let p = table.remove(i);
            return Some(p);
        }
        i = i + 1;
    }
    assert(all.skip(i as int) =~= Seq::<PresetView>::empty());
    None
}

/// The ids of the built-in presets, in picker order.
pub fn provider_ids() -> (r: Vec<&'static str>)
    ensures
        strs_view(r@) == spec_presets().map_values(|p: PresetView| p.id),
{
    let table = provider_presets();
    let ghost all = table@.map_values(|p: ProviderPreset| p@);
    let mut out: Vec<&'static str> = Vec::new();
    let mut i: usize = 0;
    while i < table.len()
        invariant
            i <= table.len(),
            all == spec_presets(),
            all == table@.map_values(|p: ProviderPreset| p@),
            strs_view(out@) =~= all.take(i as int).map_values(|p: PresetView| p.id),
        decreases table.len() - i,
    {
        let ghost before = out@;
        out.push(table[i].id);
        assert(all[i as int] == table@[i as int]@);
        assert(all.take(i + 1) =~= all.take(i as int).push(all[i as int]));
        assert(strs_view(out@) =~= strs_view(before).push(table@[i as int].id@));
        assert(strs_view(out@) =~= all.take(i + 1).map_values(|p: PresetView| p.id));
        i = i + 1;
    }
    assert(all.take(i as int) =~= all);
    out
}

pub open spec fn default_openai_url() -> Seq<char> {
    "https://api.openai.com/v1"@
}

/// The endpoint used for `provider` when `configured` (trimmed) was stored:
/// a preset's own endpoint replaces an empty or OpenAI-pointing value, except
/// that a custom OpenAI-compatible provider keeps any configured URL.
pub open spec fn spec_resolve_base_url(provider: Seq<char>, configured0: Seq<char>) -> Seq<char> {
    let configured = text::trim(configured0);
    let fallback = if configured.len() == 0 { default_openai_url() } else { configured };
    match spec_provider_preset(provider) {
        Some(preset) => {
            if text::eq_ignore_case(provider, "openai-compatible"@) && configured.len() > 0 {
                configured
            } else if text::eq_ignore_case(provider, "ollama"@) && (configured.len() == 0
                || text::contains(configured, "openai.com"@)) {
                preset.default_base_url
            } else if configured.len() == 0 || configured == default_openai_url() || (provider
                != "openai"@ && provider != "openai-compatible"@ && text::contains(
                configured,
                "api.openai.com"@,
            )) {
                preset.default_base_url
            } else {
                fallback
            }
        },
        None => fallback,
    }
}

/// Resolve base URL for a provider id, falling back to stored URL.
pub fn resolve_base_url(provider: &str, configured: &str) -> (r: String)
    ensures
        r@ == spec_resolve_base_url(provider@, configured@),
{
    let conf = trim_str(configured);
    let prov = chars_of(provider);
    let fallback = if conf.len() == 0 {
        string_of(&chars_of("https://api.openai.com/v1"))
    } else {
        string_of(&conf)
    };
    match provider_preset(provider) {
        Some(preset) => {
            if eq_ignore_case_exec(&prov, &chars_of("openai-compatible")) && conf.len() > 0 {
                return string_of(&conf);
            }
            if eq_ignore_case_exec(&prov, &chars_of("ollama")) && (conf.len() == 0 || contains_exec(
                &conf,
                &chars_of("openai.com"),
            )) {
                return string_of(&chars_of(preset.default_base_url));
            }
            if conf.len() == 0 || chars_eq_str(&conf, "https://api.openai.com/v1") || (!str_eq(
                provider,
                "openai",
            ) && !str_eq(provider, "openai-compatible") && contains_exec(
                &conf,
                &chars_of("api.openai.com"),
            )) {
                return string_of(&chars_of(preset.default_base_url));
            }
            fallback
        },
        None => fallback,
    }
}


/// Whether some entry of `out` equals `m` ignoring ASCII case.
pub open spec fn has_key(out: Seq<Seq<char>>, m: Seq<char>) -> bool {
    exists|j: int| 0 <= j < out.len() && #[trigger] text::lower(out[j]) == text::lower(m)
}

/// Append each candidate in turn unless an entry with the same ASCII-lowercase
/// key is already there.
pub open spec fn add_unique(out: Seq<Seq<char>>, cands: Seq<Seq<char>>) -> Seq<Seq<char>>
    decreases cands.len(),
{
    if cands.len() == 0 {
        out
    } else {
        let m = cands[0];
        add_unique(if has_key(out, m) { out } else { out.push(m) }, cands.drop_first())
    }
}

/// Like `add_unique`, on the trimmed parts, skipping the empty ones.
pub open spec fn add_extras(out: Seq<Seq<char>>, parts: Seq<Seq<char>>) -> Seq<Seq<char>>
    decreases parts.len(),
{
    if parts.len() == 0 {
        out
    } else {
        let m = text::trim(parts[0]);
        add_extras(
            if m.len() == 0 || has_key(out, m) { out } else { out.push(m) },
            parts.drop_first(),
        )
    }
}

pub open spec fn is_model_sep(c: char) -> bool {
    c == ',' || c == '\n' || c == ';'
}

/// `str::split` on `,`, `\n` and `;`.
pub open spec fn split_models(s: Seq<char>) -> Seq<Seq<char>>
    decreases s.len(),
{
    if s.len() == 0 {
        seq![Seq::empty()]
    } else {
        let prev = split_models(s.drop_last());
        if is_model_sep(s.last()) {
            prev.push(Seq::empty())
        } else {
            prev.update(prev.len() - 1, prev.last().push(s.last()))
        }
    }
}

proof fn lemma_split_models_nonempty(s: Seq<char>)
    ensures
        split_models(s).len() >= 1,
    decreases s.len(),
{
    if s.len() > 0 {
        lemma_split_models_nonempty(s.drop_last());
    }
}

/// The models offered by the picker: `Auto`, then the preset's catalog, then
/// the user's extra models, each kept once (ASCII case ignored).
pub open spec fn spec_model_picker_list(provider: Seq<char>, extra_models: Seq<char>) -> Seq<Seq<char>> {
    let base = seq!["Auto"@];
    let with_presets = match spec_provider_preset(provider) {
        Some(p) => add_unique(base, p.models),
        None => base,
    };
    add_extras(with_presets, split_models(extra_models))
}

pub fn split_models_exec(v: &Vec<char>) -> (r: Vec<Vec<char>>)
    ensures
        r@.map_values(|p: Vec<char>| p@) == split_models(v@),
{
    let mut out: Vec<Vec<char>> = Vec::new();
    let mut cur: Vec<char> = Vec::new();
    let mut i: usize = 0;
    assert(v@.take(0) =~= Seq::<char>::empty());
    assert(out@.map_values(|p: Vec<char>| p@).push(cur@) =~= seq![Seq::<char>::empty()]);
    while i < v.len()
        invariant
            i <= v.len(),
            out@.map_values(|p: Vec<char>| p@).push(cur@) == split_models(v@.take(i as int)),
        decreases v.len() - i,
    {
        let c = v[i];
        let ghost prev = split_models(v@.take(i as int));
        assert(v@.take(i + 1).drop_last() =~= v@.take(i as int));
        assert(v@.take(i + 1).last() == c);
        if c == ',' || c == '\n' || c == ';' {
            let ghost before = out@.map_values(|p: Vec<char>| p@);
            let done = cur;
            cur = Vec::new();
            out.push(done);
            assert(out@.map_values(|p: Vec<char>| p@) =~= before.push(done@));
            assert(out@.map_values(|p: Vec<char>| p@).push(cur@) =~= prev.push(Seq::empty()));
        } else {
            cur.push(c);
            assert(out@.map_values(|p: Vec<char>| p@).push(cur@) =~= prev.update(
                prev.len() - 1,
                prev.last().push(c),
            ));
        }
        i = i + 1;
    }
    assert(v@.take(v.len() as int) =~= v@);
    out.push(cur);
    out
}

/// Whether `keys` (the lowercase forms of the entries so far) holds the
/// lowercase form of `m`.
fn has_key_exec(keys: &Vec<Vec<char>>, key: &Vec<char>, Ghost(out): Ghost<Seq<Seq<char>>>, Ghost(m): Ghost<Seq<char>>) -> (r: bool)
    requires
        keys@.map_values(|k: Vec<char>| k@) == out.map_values(|s: Seq<char>| text::lower(s)),
        key@ == text::lower(m),
    ensures
        r == has_key(out, m),
{
    let mut j: usize = 0;
    assert(keys@.map_values(|k: Vec<char>| k@).len() == keys@.len());
    while j < keys.len()
        invariant
            j <= keys.len(),
            keys@.len() == out.len(),
            keys@.map_values(|k: Vec<char>| k@) == out.map_values(|s: Seq<char>| text::lower(s)),
            key@ == text::lower(m),
            forall|t: int| 0 <= t < j ==> #[trigger] text::lower(out[t]) != text::lower(m),
        decreases keys.len() - j,
    {
        assert(keys@.map_values(|k: Vec<char>| k@)[j as int] == keys@[j as int]@);
        assert(out.map_values(|s: Seq<char>| text::lower(s))[j as int] == text::lower(out[j as int]));
        if chars_eq(&keys[j], key) {
            assert(text::lower(out[j as int]) == text::lower(m));
            return true;
        }
        j = j + 1;
    }
    false
}

/// Models shown in the picker: Auto + provider presets + user extras.
pub fn model_picker_list(provider: &str, extra_models: &str) -> (r: Vec<String>)
    ensures
        r@.map_values(|s: String| s@) == spec_model_picker_list(provider@, extra_models@),
{
    let auto = string_of(&chars_of("Auto"));
    let auto_key = lower_exec(&chars_of("Auto"));
    let mut out: Vec<String> = vec![auto];
    let mut keys: Vec<Vec<char>> = vec![auto_key];
    proof {
        assert(out@.map_values(|s: String| s@) =~= seq!["Auto"@]);
        assert(keys@.map_values(|k: Vec<char>| k@) =~= seq!["Auto"@].map_values(|s: Seq<char>| text::lower(s)));
    }
    let ghost base = seq!["Auto"@];
    let ghost with_presets = match spec_provider_preset(provider@) {
        Some(p) => add_unique(base, p.models),
        None => base,
    };
    match provider_preset(provider) {
        Some(preset) => {
            let ghost ms = strs_view(preset.models@);
            let mut i: usize = 0;
            assert(ms.skip(0) =~= ms);
            while i < preset.models.len()
                invariant
                    i <= preset.models.len(),
                    ms == strs_view(preset.models@),
                    ms == spec_provider_preset(provider@).unwrap().models,
                    spec_provider_preset(provider@) is Some,
                    with_presets == add_unique(base, ms),
                    add_unique(out@.map_values(|s: String| s@), ms.skip(i as int)) == with_presets,
                    keys@.map_values(|k: Vec<char>| k@) == out@.map_values(|s: String| s@).map_values(
                        |s: Seq<char>| text::lower(s),
                    ),
                decreases preset.models.len() - i,
            {
                let m = chars_of(preset.models[i]);
                let key = lower_exec(&m);
                let ghost ov = out@.map_values(|s: String| s@);
                assert(ms.skip(i as int)[0] == m@);
                assert(ms.skip(i as int).drop_first() =~= ms.skip(i + 1));
                if !has_key_exec(&keys, &key, Ghost(ov), Ghost(m@)) {
                    let ghost kv = keys@.map_values(|k: Vec<char>| k@);
                    out.push(string_of(&m));
                    keys.push(key);
                    assert(out@.map_values(|s: String| s@) =~= ov.push(m@));
                    assert(keys@.map_values(|k: Vec<char>| k@) =~= kv.push(text::lower(m@)));
                    assert(ov.push(m@).map_values(|s: Seq<char>| text::lower(s)) =~= ov.map_values(
                        |s: Seq<char>| text::lower(s),
                    ).push(text::lower(m@)));
                }
                i = i + 1;
            }
            assert(ms.skip(i as int) =~= Seq::<Seq<char>>::empty());
        },
        None => {},
    }
    let parts = split_models_exec(&chars_of(extra_models));
    let ghost pv = parts@.map_values(|p: Vec<char>| p@);
    let mut i: usize = 0;
    assert(pv.skip(0) =~= pv);
    while i < parts.len()
        invariant
            i <= parts.len(),
            pv == parts@.map_values(|p: Vec<char>| p@),
            pv == split_models(extra_models@),
            add_extras(out@.map_values(|s: String| s@), pv.skip(i as int)) == add_extras(with_presets, pv),
            keys@.map_values(|k: Vec<char>| k@) == out@.map_values(|s: String| s@).map_values(
                |s: Seq<char>| text::lower(s),
            ),
        decreases parts.len() - i,
    {
        let m = trim_exec(&parts[i]);
        let key = lower_exec(&m);
        let ghost ov = out@.map_values(|s: String| s@);
        assert(pv.skip(i as int)[0] == parts@[i as int]@);
        assert(pv.skip(i as int).drop_first() =~= pv.skip(i + 1));
        if m.len() > 0 && !has_key_exec(&keys, &key, Ghost(ov), Ghost(m@)) {
            let ghost kv = keys@.map_values(|k: Vec<char>| k@);
            out.push(string_of(&m));
            keys.push(key);
            assert(out@.map_values(|s: String| s@) =~= ov.push(m@));
            assert(keys@.map_values(|k: Vec<char>| k@) =~= kv.push(text::lower(m@)));
            assert(ov.push(m@).map_values(|s: Seq<char>| text::lower(s)) =~= ov.map_values(
                |s: Seq<char>| text::lower(s),
            ).push(text::lower(m@)));
        }
        i = i + 1;
    }
    assert(pv.skip(i as int) =~= Seq::<Seq<char>>::empty());
    out
}


/// No two entries are equal ignoring ASCII case.
pub open spec fn distinct_keys(s: Seq<Seq<char>>) -> bool {
    forall|i: int, j: int|
        0 <= i < j < s.len() ==> #[trigger] text::lower(s[i]) != #[trigger] text::lower(s[j])
}

proof fn lemma_has_key_push(out: Seq<Seq<char>>, m: Seq<char>, x: Seq<char>)
    ensures
        has_key(out, x) ==> has_key(out.push(m), x),
        has_key(out.push(m), m),
{
    if has_key(out, x) {
        let j = choose|j: int| 0 <= j < out.len() && #[trigger] text::lower(out[j]) == text::lower(x);
        assert(out.push(m)[j] == out[j]);
    }
    assert(out.push(m)[out.len() as int] == m);
    assert(text::lower(out.push(m)[out.len() as int]) == text::lower(m));
}

proof fn lemma_add_unique(out: Seq<Seq<char>>, cands: Seq<Seq<char>>)
    ensures
        out.len() <= add_unique(out, cands).len(),
        add_unique(out, cands).take(out.len() as int) == out,
        distinct_keys(out) ==> distinct_keys(add_unique(out, cands)),
        forall|x: Seq<char>| has_key(out, x) ==> has_key(add_unique(out, cands), x),
        forall|k: int| 0 <= k < cands.len() ==> has_key(add_unique(out, cands), #[trigger] cands[k]),
    decreases cands.len(),
{
    if cands.len() > 0 {
        let m = cands[0];
        let next = if has_key(out, m) { out } else { out.push(m) };
        lemma_add_unique(next, cands.drop_first());
        let r = add_unique(next, cands.drop_first());
        assert(r.take(out.len() as int) =~= out) by {
            assert(r.take(next.len() as int) == next);
            assert forall|i: int| 0 <= i < out.len() implies r[i] == out[i] by {
                assert(r.take(next.len() as int)[i] == r[i]);
            }
        }
        assert forall|x: Seq<char>| has_key(out, x) implies has_key(r, x) by {
            lemma_has_key_push(out, m, x);
        }
        assert forall|k: int| 0 <= k < cands.len() implies has_key(r, #[trigger] cands[k]) by {
            if k == 0 {
                lemma_has_key_push(out, m, m);
            } else {
                assert(cands[k] == cands.drop_first()[k - 1]);
            }
        }
        if distinct_keys(out) && !has_key(out, m) {
            assert forall|i: int, j: int| 0 <= i < j < next.len() implies #[trigger] text::lower(next[i])
                != #[trigger] text::lower(next[j]) by {
                if j == out.len() {
                    assert(next[j] == m);
                    assert(next[i] == out[i]);
                }
            }
        }
    }
}

proof fn lemma_add_extras(out: Seq<Seq<char>>, parts: Seq<Seq<char>>)
    ensures
        out.len() <= add_extras(out, parts).len(),
        add_extras(out, parts).take(out.len() as int) == out,
        distinct_keys(out) ==> distinct_keys(add_extras(out, parts)),
        forall|k: int|
            0 <= k < parts.len() && text::trim(#[trigger] parts[k]).len() > 0 ==> has_key(
                add_extras(out, parts),
                text::trim(parts[k]),
            ),
    decreases parts.len(),
{
    if parts.len() > 0 {
        let m = text::trim(parts[0]);
        let next = if m.len() == 0 || has_key(out, m) { out } else { out.push(m) };
        lemma_add_extras(next, parts.drop_first());
        let r = add_extras(next, parts.drop_first());
        lemma_add_extras_keeps(next, parts.drop_first());
        assert(r.take(out.len() as int) =~= out) by {
            assert(r.take(next.len() as int) == next);
            assert forall|i: int| 0 <= i < out.len() implies r[i] == out[i] by {
                assert(r.take(next.len() as int)[i] == r[i]);
            }
        }
        assert forall|k: int|
            0 <= k < parts.len() && text::trim(#[trigger] parts[k]).len() > 0 implies has_key(
            r,
            text::trim(parts[k]),
        ) by {
            if k == 0 {
                lemma_has_key_push(out, m, m);
            } else {
                assert(parts[k] == parts.drop_first()[k - 1]);
            }
        }
        if distinct_keys(out) && m.len() > 0 && !has_key(out, m) {
            assert forall|i: int, j: int| 0 <= i < j < next.len() implies #[trigger] text::lower(next[i])
                != #[trigger] text::lower(next[j]) by {
                if j == out.len() {
                    assert(next[j] == m);
                    assert(next[i] == out[i]);
                }
            }
        }
    }
}

proof fn lemma_add_extras_keeps(out: Seq<Seq<char>>, parts: Seq<Seq<char>>)
    ensures
        forall|x: Seq<char>| has_key(out, x) ==> has_key(add_extras(out, parts), x),
    decreases parts.len(),
{
    if parts.len() > 0 {
        let m = text::trim(parts[0]);
        let next = if m.len() == 0 || has_key(out, m) { out } else { out.push(m) };
        lemma_add_extras_keeps(next, parts.drop_first());
        assert forall|x: Seq<char>| has_key(out, x) implies has_key(add_extras(out, parts), x) by {
            lemma_has_key_push(out, m, x);
        }
    }
}

/// The model picker always starts with `Auto`, never lists two models that
/// differ only in ASCII case, and offers every model of the provider's preset
/// and every non-blank entry of the user's extra list (by its trimmed form,
/// ASCII case ignored).
pub proof fn law_model_picker_list(provider: Seq<char>, extra_models: Seq<char>)
    ensures
        spec_model_picker_list(provider, extra_models).len() >= 1,
        spec_model_picker_list(provider, extra_models)[0] == "Auto"@,
        distinct_keys(spec_model_picker_list(provider, extra_models)),
        spec_provider_preset(provider) matches Some(p) ==> forall|k: int|
            0 <= k < p.models.len() ==> has_key(
                spec_model_picker_list(provider, extra_models),
                #[trigger] p.models[k],
            ),
        forall|k: int|
            0 <= k < split_models(extra_models).len() && text::trim(
                #[trigger] split_models(extra_models)[k],
            ).len() > 0 ==> has_key(
                spec_model_picker_list(provider, extra_models),
                text::trim(split_models(extra_models)[k]),
            ),
{
    let base = seq!["Auto"@];
    let with_presets = match spec_provider_preset(provider) {
        Some(p) => add_unique(base, p.models),
        None => base,
    };
    let parts = split_models(extra_models);
    let r = add_extras(with_presets, parts);
    assert(distinct_keys(base));
    match spec_provider_preset(provider) {
        Some(p) => {
            lemma_add_unique(base, p.models);
        },
        None => {},
    }
    lemma_add_extras(with_presets, parts);
    lemma_add_extras_keeps(with_presets, parts);
    assert(r.take(with_presets.len() as int) == with_presets);
    assert(with_presets.take(1) == base);
    assert(r[0] == r.take(with_presets.len() as int)[0]);
    assert(with_presets[0] == with_presets.take(1)[0]);
}


/// The value of the first entry named `key` in an environment snapshot.
pub open spec fn env_lookup(env: Seq<(Seq<char>, Seq<char>)>, key: Seq<char>) -> Option<Seq<char>>
    decreases env.len(),
{
    if env.len() == 0 {
        None
    } else if env[0].0 == key {
        Some(env[0].1)
    } else {
        env_lookup(env.drop_first(), key)
    }
}

/// The first of `keys` set to a non-empty value.
pub open spec fn first_set(env: Seq<(Seq<char>, Seq<char>)>, keys: Seq<Seq<char>>) -> Option<Seq<char>>
    decreases keys.len(),
{
    if keys.len() == 0 {
        None
    } else {
        match env_lookup(env, keys[0]) {
            Some(v) if v.len() > 0 => Some(v),
            _ => first_set(env, keys.drop_first()),
        }
    }
}

/// The API key: the configured one (trimmed) when it is not blank, else the
/// first provider-specific variable with a non-empty value, else
/// `DEVFORGE_AI_API_KEY`, else `OPENAI_API_KEY`, else nothing.
pub open spec fn spec_api_key(provider: Seq<char>, configured: Seq<char>, env: Seq<(Seq<char>, Seq<char>)>) -> Seq<char> {
    let conf = text::trim(configured);
    let from_preset = match spec_provider_preset(provider) {
        Some(p) => first_set(env, p.env_keys),
        None => None,
    };
    if conf.len() > 0 {
        conf
    } else if from_preset is Some {
        from_preset.unwrap()
    } else {
        match env_lookup(env, "DEVFORGE_AI_API_KEY"@) {
            Some(v) => v,
            None => match env_lookup(env, "OPENAI_API_KEY"@) {
                Some(v) => v,
                None => Seq::empty(),
            },
        }
    }
}

pub open spec fn env_view(env: Seq<(String, String)>) -> Seq<(Seq<char>, Seq<char>)> {
    env.map_values(|e: (String, String)| (e.0@, e.1@))
}

pub(crate) fn env_lookup_exec(env: &Vec<(String, String)>, key: &str) -> (r: Option<String>)
    ensures
        match r {
            Some(v) => env_lookup(env_view(env@), key@) == Some(v@),
            None => env_lookup(env_view(env@), key@) is None,
        },
{
    let ghost ev = env_view(env@);
    let mut i: usize = 0;
    assert(ev.skip(0) =~= ev);
    while i < env.len()
        invariant
            i <= env.len(),
            ev == env_view(env@),
            env_lookup(ev.skip(i as int), key@) == env_lookup(ev, key@),
        decreases env.len() - i,
    {
        assert(ev.skip(i as int)[0] == (env@[i as int].0@, env@[i as int].1@));
        assert(ev.skip(i as int).drop_first() =~= ev.skip(i + 1));
        if str_eq(env[i].0.as_str(), key) {
            return Some(string_of(&chars_of(env[i].1.as_str())));
        }
        i = i + 1;
    }
    assert(ev.skip(i as int) =~= Seq::<(Seq<char>, Seq<char>)>::empty());
    None
}

/// Resolve the API key from the configured value, then from an environment
/// snapshot (`(name, value)` pairs) by the provider's own variables.
pub fn resolve_api_key_in(provider: &str, configured: &str, env: &Vec<(String, String)>) -> (r: String)
    ensures
        r@ == spec_api_key(provider@, configured@, env_view(env@)),
{
    let conf = trim_str(configured);
    if conf.len() > 0 {
        return string_of(&conf);
    }
    let ghost ev = env_view(env@);
    match provider_preset(provider) {
        Some(preset) => {
            let ghost ks = strs_view(preset.env_keys@);
            let mut i: usize = 0;
            assert(ks.skip(0) =~= ks);
            while i < preset.env_keys.len()
                invariant
                    i <= preset.env_keys.len(),
                    ev == env_view(env@),
                    ks == strs_view(preset.env_keys@),
                    spec_provider_preset(provider@) == Some(preset@),
                    text::trim(configured@).len() == 0,
                    first_set(ev, ks.skip(i as int)) == first_set(ev, ks),
                decreases preset.env_keys.len() - i,
            {
                assert(ks.skip(i as int)[0] == preset.env_keys@[i as int]@);
                assert(ks.skip(i as int).drop_first() =~= ks.skip(i + 1));
                match env_lookup_exec(env, preset.env_keys[i]) {
                    Some(v) => {
                        if v.as_str().unicode_len() > 0 {
                            return v;
                        }
                    },
                    None => {},
                }
                i = i + 1;
            }
            assert(ks.skip(i as int) =~= Seq::<Seq<char>>::empty());
        },
        None => {},
    }
    match env_lookup_exec(env, "DEVFORGE_AI_API_KEY") {
        Some(v) => v,
        None => match env_lookup_exec(env, "OPENAI_API_KEY") {
            Some(v) => v,
            None => String::new(),
        },
    }
}

/// One `[[ai.mcp-servers]]` entry of the settings.
#[derive(Debug, Clone, Default)]
pub struct McpServerConfig {
    pub name: String,
    pub command: String,
    pub args: Vec<String>,
    pub enabled: bool,
}

} // verus!
