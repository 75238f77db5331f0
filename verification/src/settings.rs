//! Text of the Settings page: section blurbs, field names, the text the
//! search box matches, and the list-valued fields.
use vstd::prelude::*;

use crate::ai_providers::{self, split_models};
use crate::text::{self, chars_of, string_of, str_eq, push_str, push_chars, lower_exec, trim_exec};
use crate::tools::{self, join_strings};
use crate::assets::{lex_lt, lex_lt_exec};

verus! {

pub open spec fn spec_section_blurb(kind: Seq<char>) -> Seq<char> {
    if kind == "Core"@ {
        "Theme, title bar, and general app behavior"@
    } else if kind == "Editor"@ {
        "Fonts, wrapping, cursors, and editing helpers"@
    } else if kind == "UI"@ {
        "Scale, sizes, and layout of panels and tabs"@
    } else if kind == "Terminal"@ {
        "Font and line height for the integrated terminal"@
    } else if kind == "AI"@ {
        "Assistant provider, model, and safety options"@
    } else if kind == "Plugin Settings"@ {
        "Options exposed by installed plugins"@
    } else {
        "Plugin-specific options"@
    }
}

/// Short blurb shown under each Settings section title.
pub fn section_blurb(kind: &str) -> (r: &'static str)
    ensures
        r@ == spec_section_blurb(kind@),
{
    if str_eq(kind, "Core") {
        "Theme, title bar, and general app behavior"
    } else if str_eq(kind, "Editor") {
        "Fonts, wrapping, cursors, and editing helpers"
    } else if str_eq(kind, "UI") {
        "Scale, sizes, and layout of panels and tabs"
    } else if str_eq(kind, "Terminal") {
        "Font and line height for the integrated terminal"
    } else if str_eq(kind, "AI") {
        "Assistant provider, model, and safety options"
    } else if str_eq(kind, "Plugin Settings") {
        "Options exposed by installed plugins"
    } else {
        "Plugin-specific options"
    }
}

/// `Inflector`'s title case of a text.
pub uninterp spec fn spec_title_case(s: Seq<char>) -> Seq<char>;

/// Calls `inflector::cases::titlecase::to_title_case`; the result is named
/// `spec_title_case` of the text.
#[verifier::external_body]
fn title_case(s: &str) -> (r: String)
    ensures
        r@ == spec_title_case(s@),
{
    inflector::cases::titlecase::to_title_case(s)
}

/// `_` and `-` read as spaces.
pub open spec fn spaced(field: Seq<char>) -> Seq<char> {
    field.map_values(|c: char| if c == '_' || c == '-' { ' ' } else { c })
}

pub open spec fn spec_friendly_field_name(field: Seq<char>) -> Seq<char> {
    spec_title_case(spaced(field))
}

/// The label of a settings field: its words in title case.
pub fn friendly_field_name(field: &str) -> (r: String)
    ensures
        r@ == spec_friendly_field_name(field@),
{
    let v = chars_of(field);
    let mut out: Vec<char> = Vec::new();
    let mut i: usize = 0;
    while i < v.len()
        invariant
            i <= v.len(),
            out@ =~= spaced(v@.take(i as int)),
        decreases v.len() - i,
    {
        let c = v[i];
        if c == '_' || c == '-' {
            out.push(' ');
        } else {
            out.push(c);
        }
        i = i + 1;
    }
    assert(v@.take(v.len() as int) =~= v@);
    title_case(string_of(&out).as_str())
}

/// The parts of a comma, newline or semicolon separated list, trimmed, the
/// blank ones left out.
pub open spec fn nonblank_parts(parts: Seq<Seq<char>>) -> Seq<Seq<char>>
    decreases parts.len(),
{
    if parts.len() == 0 {
        Seq::empty()
    } else {
        let rest = nonblank_parts(parts.drop_last());
        let t = text::trim(parts.last());
        if t.len() == 0 { rest } else { rest.push(t) }
    }
}

pub open spec fn spec_parse_list(value: Seq<char>) -> Seq<Seq<char>> {
    nonblank_parts(split_models(value))
}

/// Split a comma/newline/semicolon separated list, dropping blanks.
pub fn parse_list(value: &str) -> (r: Vec<String>)
    ensures
        r@.map_values(|s: String| s@) == spec_parse_list(value@),
{
    let parts = ai_providers::split_models_exec(&chars_of(value));
    let ghost pv = parts@.map_values(|p: Vec<char>| p@);
    let mut out: Vec<String> = Vec::new();
    let mut i: usize = 0;
    while i < parts.len()
        invariant
            i <= parts.len(),
            pv == parts@.map_values(|p: Vec<char>| p@),
            out@.map_values(|s: String| s@) == nonblank_parts(pv.take(i as int)),
        decreases parts.len() - i,
    {
        assert(pv.take(i + 1).drop_last() =~= pv.take(i as int));
        assert(pv.take(i + 1).last() == parts@[i as int]@);
        let t = trim_exec(&parts[i]);
        if t.len() > 0 {
            let ghost before = out@.map_values(|s: String| s@);
            out.push(string_of(&t));
            assert(out@.map_values(|s: String| s@) =~= before.push(t@));
        }
        i = i + 1;
    }
    assert(pv.take(i as int) =~= pv);
    out
}

/// The stored `ai.extra-models` value for a list of models: the non-blank
/// ones, trimmed, joined with `, `.
pub open spec fn spec_join_models(models: Seq<Seq<char>>) -> Seq<char> {
    tools::join(nonblank_parts(models), ", "@)
}

pub fn join_extra_models(models: &Vec<String>) -> (r: String)
    ensures
        r@ == spec_join_models(models@.map_values(|s: String| s@)),
{
    let ghost mv = models@.map_values(|s: String| s@);
    let mut kept: Vec<String> = Vec::new();
    let mut i: usize = 0;
    while i < models.len()
        invariant
            i <= models.len(),
            mv == models@.map_values(|s: String| s@),
            kept@.map_values(|s: String| s@) == nonblank_parts(mv.take(i as int)),
        decreases models.len() - i,
    {
        assert(mv.take(i + 1).drop_last() =~= mv.take(i as int));
        assert(mv.take(i + 1).last() == models@[i as int]@);
        let t = trim_exec(&chars_of(models[i].as_str()));
        if t.len() > 0 {
            let ghost before = kept@.map_values(|s: String| s@);
            kept.push(string_of(&t));
            assert(kept@.map_values(|s: String| s@) =~= before.push(t@));
        }
        i = i + 1;
    }
    assert(mv.take(i as int) =~= mv);
    join_strings(&kept, ", ")
}

/// Whether `list` holds `m`, ASCII case ignored.
pub open spec fn has_model(list: Seq<Seq<char>>, m: Seq<char>) -> bool {
    exists|i: int| 0 <= i < list.len() && text::eq_ignore_case(#[trigger] list[i], m)
}

/// The new `ai.extra-models` value once `model` is added to the picker: the
/// stored entries, then `model`, joined with `, `; `None` when an entry
/// already names it (ASCII case ignored), so nothing is to be stored.
pub fn add_extra_model(extra_models: &str, model: &str) -> (r: Option<String>)
    ensures
        has_model(spec_parse_list(extra_models@), model@) ==> r is None,
        !has_model(spec_parse_list(extra_models@), model@) ==> (r matches Some(s) && s@ == tools::join(
            spec_parse_list(extra_models@).push(model@),
            ", "@,
        )),
{
    let mut list = parse_list(extra_models);
    let ghost lv = spec_parse_list(extra_models@);
    let m = chars_of(model);
    let mut i: usize = 0;
    while i < list.len()
        invariant
            i <= list.len(),
            list@.map_values(|s: String| s@) == lv,
            lv == spec_parse_list(extra_models@),
            m@ == model@,
            forall|j: int| 0 <= j < i ==> !text::eq_ignore_case(#[trigger] lv[j], model@),
        decreases list.len() - i,
    {
        if text::eq_ignore_case_exec(&chars_of(list[i].as_str()), &m) {
            assert(lv[i as int] == list@[i as int]@);
            assert(text::eq_ignore_case(lv[i as int], model@));
            return None;
        }
        assert(lv[i as int] == list@[i as int]@);
        i = i + 1;
    }
    list.push(string_of(&m));
    assert(list@.map_values(|s: String| s@) =~= lv.push(model@));
    Some(join_strings(&list, ", "))
}

/// What the search box matches for a field: `<kind> <name> <description>`
/// lower-cased, followed by the same text without spaces.
pub open spec fn spec_filter_text(kind_lower: Seq<char>, display_name: Seq<char>, desc: Seq<char>) -> Seq<char> {
    let t = text::lower(kind_lower + " "@ + display_name + " "@ + desc);
    t + without_spaces(t)
}

/// `s` with its spaces removed.
pub open spec fn without_spaces(s: Seq<char>) -> Seq<char>
    decreases s.len(),
{
    if s.len() == 0 {
        s
    } else if s.last() == ' ' {
        without_spaces(s.drop_last())
    } else {
        without_spaces(s.drop_last()).push(s.last())
    }
}

pub fn filter_text(kind_lower: &str, display_name: &str, desc: &str) -> (r: String)
    ensures
        r@ == spec_filter_text(kind_lower@, display_name@, desc@),
{
    let mut raw = String::new();
    push_str(&mut raw, kind_lower);
    push_str(&mut raw, " ");
    push_str(&mut raw, display_name);
    push_str(&mut raw, " ");
    push_str(&mut raw, desc);
    let t = lower_exec(&chars_of(raw.as_str()));
    let mut squeezed: Vec<char> = Vec::new();
    let mut i: usize = 0;
    while i < t.len()
        invariant
            i <= t.len(),
            squeezed@ == without_spaces(t@.take(i as int)),
        decreases t.len() - i,
    {
        assert(t@.take(i + 1).drop_last() =~= t@.take(i as int));
        if t[i] != ' ' {
            squeezed.push(t[i]);
        }
        i = i + 1;
    }
    assert(t@.take(t.len() as int) =~= t@);
    let mut out = string_of(&t);
    push_chars(&mut out, &squeezed);
    out
}

/// Core editor settings (`[core]` of the settings file).
#[derive(Debug, Clone)]
pub struct CoreConfig {
    /// Enable modal editing (Vim-style keybindings).
    pub modal: bool,
    /// Color theme for the UI and editor.
    pub color_theme: String,
    /// Icon theme used in the sidebar, tabs, and file explorer.
    pub icon_theme: String,
    /// Use the custom title bar instead of the OS native one.
    pub custom_titlebar: bool,
    /// Only open files in the explorer with a double-click.
    pub file_explorer_double_click: bool,
    /// Automatically reload a plugin when its configuration changes.
    pub auto_reload_plugin: bool,
}

impl Default for CoreConfig {
    /// Every flag off and no theme chosen.
    fn default() -> (r: Self)
        ensures
            !r.modal,
            r.color_theme@ == Seq::<char>::empty(),
            r.icon_theme@ == Seq::<char>::empty(),
            !r.custom_titlebar,
            !r.file_explorer_double_click,
            !r.auto_reload_plugin,
    {
        CoreConfig {
            modal: false,
            color_theme: String::new(),
            icon_theme: String::new(),
            custom_titlebar: false,
            file_explorer_double_click: false,
            auto_reload_plugin: false,
        }
    }
}

/// The words of `s`: its maximal runs of non-whitespace characters, in order
/// (`str::split_whitespace`).
pub open spec fn ws_words(s: Seq<char>) -> Seq<Seq<char>>
    decreases s.len(),
{
    if s.len() == 0 {
        Seq::empty()
    } else {
        let prev = ws_words(s.drop_last());
        if text::is_ws(s.last()) {
            prev
        } else if s.len() >= 2 && !text::is_ws(s[s.len() - 2]) && prev.len() > 0 {
            prev.update(prev.len() - 1, prev.last().push(s.last()))
        } else {
            prev.push(seq![s.last()])
        }
    }
}

/// A settings entry matches a (lower-cased) search query when every word of
/// the query occurs in its filter text; an empty query matches everything.
pub open spec fn spec_query_matches(query: Seq<char>, filter_text: Seq<char>) -> bool {
    forall|k: int| 0 <= k < ws_words(query).len() ==> text::contains(filter_text, #[trigger] ws_words(query)[k])
}

proof fn lemma_all_contained_push(hay: Seq<char>, d: Seq<Seq<char>>, w: Seq<char>, ok: bool, found: bool)
    requires
        ok == (forall|k: int| 0 <= k < d.len() ==> text::contains(hay, #[trigger] d[k])),
        found == text::contains(hay, w),
    ensures
        (ok && found) == (forall|k: int| 0 <= k < d.push(w).len() ==> text::contains(hay, #[trigger] d.push(w)[k])),
{
    let e = d.push(w);
    if ok && found {
        assert forall|k: int| 0 <= k < e.len() implies text::contains(hay, #[trigger] e[k]) by {
            if k < d.len() {
                assert(e[k] == d[k]);
            }
        }
    } else if !found {
        assert(e[d.len() as int] == w);
    } else {
        let k = choose|k: int| 0 <= k < d.len() && !text::contains(hay, #[trigger] d[k]);
        assert(e[k] == d[k]);
    }
}

/// Whether a settings entry with `filter_text` matches the search `query`
/// (already lower-cased): each word of the query must occur in it.
pub fn query_matches(query: &str, filter_text: &str) -> (r: bool)
    ensures
        r == spec_query_matches(query@, filter_text@),
{
    let q = chars_of(query);
    let hay = chars_of(filter_text);
    let ghost qv = q@;
    let mut done: Ghost<Seq<Seq<char>>> = Ghost(Seq::empty());
    let mut cur: Vec<char> = Vec::new();
    let mut ok = true;
    let mut i: usize = 0;
    while i < q.len()
        invariant
            i <= q.len(),
            qv == q@,
            ws_words(qv.take(i as int)) == done@ + (if cur@.len() > 0 { seq![cur@] } else { Seq::<Seq<char>>::empty() }),
            cur@.len() > 0 <==> (i > 0 && !text::is_ws(qv[i - 1])),
            ok == (forall|k: int| 0 <= k < done@.len() ==> text::contains(hay@, #[trigger] done@[k])),
        decreases q.len() - i,
    {
        let c = q[i];
        let ghost before = qv.take(i as int);
        assert(qv.take(i + 1).drop_last() =~= before);
        assert(qv.take(i + 1).last() == c);
        if text::is_ws_exec(c) {
            if cur.len() > 0 {
                let found = text::contains_exec(&hay, &cur);
                let ghost d0 = done@;
                proof {
                    done@ = done@.push(cur@);
                }
                let ghost ok0 = ok;
                ok = ok && found;
                proof {
                    lemma_all_contained_push(hay@, d0, cur@, ok0, found);
                }
                cur = Vec::new();
            }
            assert(ws_words(qv.take(i + 1)) == ws_words(before));
        } else {
            let ghost c0 = cur@;
            let had = cur.len() > 0;
            cur.push(c);
            if had {
                assert(qv.take(i + 1).len() >= 2 && !text::is_ws(qv.take(i + 1)[i - 1]));
                assert(ws_words(before) == done@.push(c0));
                assert(ws_words(qv.take(i + 1)) =~= done@.push(c0).update(done@.len() as int, c0.push(c)));
                assert(done@.push(c0).update(done@.len() as int, c0.push(c)) =~= done@ + seq![cur@]);
            } else {
                assert(ws_words(before) =~= done@);
                if i >= 1 {
                    assert(text::is_ws(qv.take(i + 1)[i - 1]));
                }
                assert(ws_words(qv.take(i + 1)) =~= done@.push(seq![c]));
                assert(cur@ =~= seq![c]);
            }
        }
        i = i + 1;
    }
    assert(qv.take(i as int) =~= qv);
    if cur.len() > 0 {
        let found = text::contains_exec(&hay, &cur);
        let ghost d0 = done@;
        proof {
            done@ = done@.push(cur@);
        }
        let ghost ok0 = ok;
        ok = ok && found;
        proof {
            lemma_all_contained_push(hay@, d0, cur@, ok0, found);
        }
    }
    assert(ws_words(qv) =~= done@);
    ok
}


/// The key of a settings field as the config stores it: the field's name
/// with `_` turned into `-`.
pub open spec fn spec_field_key(name: Seq<char>) -> Seq<char> {
    name.map_values(|c: char| if c == '_' { '-' } else { c })
}

pub fn field_key(name: &str) -> (r: String)
    ensures
        r@ == spec_field_key(name@),
{
    let v = chars_of(name);
    let mut out: Vec<char> = Vec::new();
    let mut i: usize = 0;
    while i < v.len()
        invariant
            i <= v.len(),
            out@ =~= spec_field_key(v@.take(i as int)),
        decreases v.len() - i,
    {
        let c = v[i];
        out.push(if c == '_' { '-' } else { c });
        assert(v@.take(i + 1) =~= v@.take(i as int).push(c));
        i = i + 1;
    }
    assert(v@.take(v.len() as int) =~= v@);
    string_of(&out)
}

/// A settings entry as the search sees it: its section kind (lower-cased),
/// display name, config key and filter text.
pub struct SettingsEntry {
    pub kind: String,
    pub name: String,
    pub field: String,
    pub filter_text: String,
}

pub struct SettingView {
    pub kind: Seq<char>,
    pub name: Seq<char>,
    pub field: Seq<char>,
    pub filter_text: Seq<char>,
}

pub open spec fn setting_view(e: SettingsEntry) -> SettingView {
    SettingView { kind: e.kind@, name: e.name@, field: e.field@, filter_text: e.filter_text@ }
}

pub open spec fn settings_view(v: Seq<SettingsEntry>) -> Seq<SettingView> {
    v.map_values(|e: SettingsEntry| setting_view(e))
}

impl SettingsEntry {
    pub fn copy(&self) -> (r: SettingsEntry)
        ensures
            setting_view(r) == setting_view(*self),
    {
        SettingsEntry {
            kind: string_of(&chars_of(self.kind.as_str())),
            name: string_of(&chars_of(self.name.as_str())),
            field: string_of(&chars_of(self.field.as_str())),
            filter_text: string_of(&chars_of(self.filter_text.as_str())),
        }
    }
}

/// A section of the settings page as the search sees it: its kind, its
/// entries, whether it has custom editors, and the text those match on.
pub struct SettingsSection {
    pub kind: String,
    pub fields: Vec<SettingsEntry>,
    pub has_custom: bool,
    pub search_text: String,
}

pub struct SectionView {
    pub kind: Seq<char>,
    pub fields: Seq<SettingView>,
    pub has_custom: bool,
    pub search_text: Seq<char>,
}

pub open spec fn section_view(s: SettingsSection) -> SectionView {
    SectionView { kind: s.kind@, fields: settings_view(s.fields@), has_custom: s.has_custom, search_text: s.search_text@ }
}

pub open spec fn sections_view(v: Seq<SettingsSection>) -> Seq<SectionView> {
    v.map_values(|s: SettingsSection| section_view(s))
}

/// The entries that match the query, in order.
pub open spec fn matching(query: Seq<char>, items: Seq<SettingView>) -> Seq<SettingView>
    decreases items.len(),
{
    if items.len() == 0 {
        Seq::empty()
    } else {
        let prev = matching(query, items.drop_last());
        if spec_query_matches(query, items.last().filter_text) {
            prev.push(items.last())
        } else {
            prev
        }
    }
}

/// The entries of the section kind `kind`, in order.
pub open spec fn of_kind(kind: Seq<char>, items: Seq<SettingView>) -> Seq<SettingView>
    decreases items.len(),
{
    if items.len() == 0 {
        Seq::empty()
    } else {
        let prev = of_kind(kind, items.drop_last());
        if items.last().kind == kind {
            prev.push(items.last())
        } else {
            prev
        }
    }
}

/// A section with custom editors matches when every query word occurs in
/// its search text.
pub open spec fn custom_match(query: Seq<char>, sec: SectionView) -> bool {
    sec.has_custom && sec.search_text.len() > 0 && spec_query_matches(query, sec.search_text)
}

/// What a section shows for a query: its matching entries, and, when its
/// custom editors match, every entry of its kind after them; a section with
/// nothing to show is left out.
pub open spec fn section_after(query: Seq<char>, items: Seq<SettingView>, sec: SectionView) -> Option<SectionView> {
    let fields = matching(query, sec.fields) + if custom_match(query, sec) {
        of_kind(text::lower(sec.kind), items)
    } else {
        Seq::empty()
    };
    if fields.len() > 0 || custom_match(query, sec) {
        Some(SectionView { fields, ..sec })
    } else {
        None
    }
}

pub open spec fn sections_after(query: Seq<char>, items: Seq<SettingView>, secs: Seq<SectionView>) -> Seq<SectionView>
    decreases secs.len(),
{
    if secs.len() == 0 {
        Seq::empty()
    } else {
        let prev = sections_after(query, items, secs.drop_last());
        match section_after(query, items, secs.last()) {
            Some(s) => prev.push(s),
            None => prev,
        }
    }
}

/// How many sections match through their custom editors.
pub open spec fn custom_count(query: Seq<char>, secs: Seq<SectionView>) -> nat
    decreases secs.len(),
{
    if secs.len() == 0 {
        0
    } else {
        custom_count(query, secs.drop_last()) + if custom_match(query, secs.last()) { 1nat } else { 0nat }
    }
}

/// What the settings search shows for a (lower-cased) query.
pub struct SettingsSearch {
    /// The matching entries, core settings first, then plugin settings.
    pub matched: Vec<SettingsEntry>,
    /// The sections with something to show.
    pub sections: Vec<SettingsSection>,
    /// The number of matches shown: entries and custom editors.
    pub match_count: usize,
}

fn matching_exec(query: &str, items: &Vec<SettingsEntry>, out: &mut Vec<SettingsEntry>)
    ensures
        settings_view(final(out)@) == settings_view(old(out)@) + matching(query@, settings_view(items@)),
{
    let ghost iv = settings_view(items@);
    let ghost start = settings_view(out@);
    let mut i: usize = 0;
    while i < items.len()
        invariant
            i <= items.len(),
            iv == settings_view(items@),
            settings_view(out@) == start + matching(query@, iv.take(i as int)),
        decreases items.len() - i,
    {
        proof {
            assert(iv.take(i + 1).drop_last() =~= iv.take(i as int));
            assert(iv.take(i + 1).last() == iv[i as int]);
        }
        if query_matches(query, items[i].filter_text.as_str()) {
            let ghost before = settings_view(out@);
            out.push(items[i].copy());
            assert(settings_view(out@) =~= before.push(iv[i as int]));
        }
        i = i + 1;
    }
    assert(iv.take(items.len() as int) =~= iv);
}

fn of_kind_exec(kind: &str, items: &Vec<SettingsEntry>, out: &mut Vec<SettingsEntry>)
    ensures
        settings_view(final(out)@) == settings_view(old(out)@) + of_kind(kind@, settings_view(items@)),
{
    let ghost iv = settings_view(items@);
    let ghost start = settings_view(out@);
    let mut i: usize = 0;
    while i < items.len()
        invariant
            i <= items.len(),
            iv == settings_view(items@),
            settings_view(out@) == start + of_kind(kind@, iv.take(i as int)),
        decreases items.len() - i,
    {
        proof {
            assert(iv.take(i + 1).drop_last() =~= iv.take(i as int));
            assert(iv.take(i + 1).last() == iv[i as int]);
        }
        if str_eq(items[i].kind.as_str(), kind) {
            let ghost before = settings_view(out@);
            out.push(items[i].copy());
            assert(settings_view(out@) =~= before.push(iv[i as int]));
        }
        i = i + 1;
    }
    assert(iv.take(items.len() as int) =~= iv);
}

fn copy_entries(items: &Vec<SettingsEntry>) -> (r: Vec<SettingsEntry>)
    ensures
        settings_view(r@) == settings_view(items@),
{
    let mut out: Vec<SettingsEntry> = Vec::new();
    let mut i: usize = 0;
    while i < items.len()
        invariant
            i <= items.len(),
            settings_view(out@) =~= settings_view(items@).take(i as int),
        decreases items.len() - i,
    {
        let ghost before = settings_view(out@);
        out.push(items[i].copy());
        assert(settings_view(out@) =~= before.push(setting_view(items@[i as int])));
        assert(settings_view(items@).take(i + 1) =~= settings_view(items@).take(i as int).push(setting_view(items@[i as int])));
        i = i + 1;
    }
    assert(settings_view(items@).take(items.len() as int) =~= settings_view(items@));
    out
}

fn copy_section(s: &SettingsSection) -> (r: SettingsSection)
    ensures
        section_view(r) == section_view(*s),
{
    SettingsSection {
        kind: string_of(&chars_of(s.kind.as_str())),
        fields: copy_entries(&s.fields),
        has_custom: s.has_custom,
        search_text: string_of(&chars_of(s.search_text.as_str())),
    }
}

/// What the settings search shows for `pattern` (lower-cased): with an empty
/// pattern every entry (core, then plugin) and every section, counting the
/// entries; else the matching entries, the sections with something to show
/// ([`section_after`]), and as count the matching entries plus the sections
/// whose custom editors match.
pub fn search_settings(
    pattern: &str,
    items: &Vec<SettingsEntry>,
    plugin_items: &Vec<SettingsEntry>,
    sections: &Vec<SettingsSection>,
) -> (r: SettingsSearch)
    requires
        items@.len() + plugin_items@.len() + sections@.len() < usize::MAX,
    ensures
        pattern@.len() == 0 ==> settings_view(r.matched@) == settings_view(items@) + settings_view(plugin_items@)
            && sections_view(r.sections@) == sections_view(sections@) && r.match_count == items@.len()
            + plugin_items@.len(),
        pattern@.len() > 0 ==> settings_view(r.matched@) == matching(
            pattern@,
            settings_view(items@) + settings_view(plugin_items@),
        ) && sections_view(r.sections@) == sections_after(pattern@, settings_view(items@), sections_view(sections@))
            && r.match_count == matching(pattern@, settings_view(items@) + settings_view(plugin_items@)).len()
            + custom_count(pattern@, sections_view(sections@)),
{
    let ghost iv = settings_view(items@);
    let ghost pv = settings_view(plugin_items@);
    let ghost sv = sections_view(sections@);
    if chars_of(pattern).len() == 0 {
        let mut all = copy_entries(items);
        let extra = copy_entries(plugin_items);
        let mut j: usize = 0;
        while j < extra.len()
            invariant
                j <= extra.len(),
                settings_view(extra@) == pv,
                settings_view(all@) =~= iv + pv.take(j as int),
            decreases extra.len() - j,
        {
            let ghost before = settings_view(all@);
            all.push(extra[j].copy());
            assert(settings_view(all@) =~= before.push(pv[j as int]));
            assert(pv.take(j + 1) =~= pv.take(j as int).push(pv[j as int]));
            j = j + 1;
        }
        assert(pv.take(extra.len() as int) =~= pv);
        let mut secs: Vec<SettingsSection> = Vec::new();
        let mut k: usize = 0;
        while k < sections.len()
            invariant
                k <= sections.len(),
                sv == sections_view(sections@),
                sections_view(secs@) =~= sv.take(k as int),
            decreases sections.len() - k,
        {
            let ghost before = sections_view(secs@);
            secs.push(copy_section(&sections[k]));
            assert(sections_view(secs@) =~= before.push(sv[k as int]));
            assert(sv.take(k + 1) =~= sv.take(k as int).push(sv[k as int]));
            k = k + 1;
        }
        assert(sv.take(sections.len() as int) =~= sv);
        let n = items.len() + plugin_items.len();
        return SettingsSearch { matched: all, sections: secs, match_count: n };
    }
    let mut matched: Vec<SettingsEntry> = Vec::new();
    matching_exec(pattern, items, &mut matched);
    matching_exec(pattern, plugin_items, &mut matched);
    proof {
        lemma_matching_append(pattern@, iv, pv);
    }
    let mut secs: Vec<SettingsSection> = Vec::new();
    let mut customs: usize = 0;
    let mut k: usize = 0;
    while k < sections.len()
        invariant
            k <= sections.len(),
            sv == sections_view(sections@),
            iv == settings_view(items@),
            sections_view(secs@) == sections_after(pattern@, iv, sv.take(k as int)),
            customs == custom_count(pattern@, sv.take(k as int)),
            customs <= k,
            items@.len() + plugin_items@.len() + sections@.len() < usize::MAX,
        decreases sections.len() - k,
    {
        proof {
            assert(sv.take(k + 1).drop_last() =~= sv.take(k as int));
            assert(sv.take(k + 1).last() == sv[k as int]);
        }
        let sec = &sections[k];
        let ghost sview = sv[k as int];
        assert(sview == section_view(*sec));
        let mut fields: Vec<SettingsEntry> = Vec::new();
        matching_exec(pattern, &sec.fields, &mut fields);
        let cm = sec.has_custom && chars_of(sec.search_text.as_str()).len() > 0 && query_matches(
            pattern,
            sec.search_text.as_str(),
        );
        if cm {
            customs = customs + 1;
            let lk = string_of(&lower_exec(&chars_of(sec.kind.as_str())));
            of_kind_exec(lk.as_str(), items, &mut fields);
        }
        assert(settings_view(fields@) =~= matching(pattern@, sview.fields) + if custom_match(pattern@, sview) {
            of_kind(text::lower(sview.kind), iv)
        } else {
            Seq::empty()
        });
        if fields.len() > 0 || cm {
            let ghost before = sections_view(secs@);
            let s2 = SettingsSection {
                kind: string_of(&chars_of(sec.kind.as_str())),
                fields,
                has_custom: sec.has_custom,
                search_text: string_of(&chars_of(sec.search_text.as_str())),
            };
            secs.push(s2);
            assert(sections_view(secs@) =~= before.push(section_after(pattern@, iv, sview)->0));
        }
        k = k + 1;
    }
    assert(sv.take(sections.len() as int) =~= sv);
    proof {
        lemma_matching_len(pattern@, iv + pv);
        assert(matched@.len() == settings_view(matched@).len());
    }
    let n = matched.len() + customs;
    SettingsSearch { matched, sections: secs, match_count: n }
}

proof fn lemma_matching_len(query: Seq<char>, s: Seq<SettingView>)
    ensures
        matching(query, s).len() <= s.len(),
    decreases s.len(),
{
    if s.len() > 0 {
        lemma_matching_len(query, s.drop_last());
    }
}

proof fn lemma_matching_append(query: Seq<char>, a: Seq<SettingView>, b: Seq<SettingView>)
    ensures
        matching(query, a + b) == matching(query, a) + matching(query, b),
    decreases b.len(),
{
    if b.len() == 0 {
        assert(a + b =~= a);
        assert(matching(query, a) + matching(query, b) =~= matching(query, a));
    } else {
        lemma_matching_append(query, a, b.drop_last());
        assert((a + b).drop_last() =~= a + b.drop_last());
        assert((a + b).last() == b.last());
    }
}

/// Where an entry goes among entries sorted by name: after every entry
/// whose name is not greater.
pub open spec fn name_pos(sorted: Seq<SettingView>, e: SettingView) -> int
    decreases sorted.len(),
{
    if sorted.len() == 0 || lex_lt(e.name, sorted[0].name) {
        0
    } else {
        1 + name_pos(sorted.drop_first(), e)
    }
}

/// The entries sorted by name, entries of equal name kept in their order
/// (a stable sort, as `sort_by_key` on the name).
pub open spec fn sort_by_name(s: Seq<SettingView>) -> Seq<SettingView>
    decreases s.len(),
{
    if s.len() == 0 {
        Seq::empty()
    } else {
        let sorted = sort_by_name(s.drop_last());
        sorted.insert(name_pos(sorted, s.last()), s.last())
    }
}

proof fn lemma_name_pos_step(sorted: Seq<SettingView>, e: SettingView, p: int)
    requires
        0 <= p <= sorted.len(),
        forall|j: int| 0 <= j < p ==> !lex_lt(e.name, (#[trigger] sorted[j]).name),
        p == sorted.len() || lex_lt(e.name, sorted[p].name),
    ensures
        name_pos(sorted, e) == p,
    decreases p,
{
    if p > 0 {
        let t = sorted.drop_first();
        assert forall|j: int| 0 <= j < p - 1 implies !lex_lt(e.name, (#[trigger] t[j]).name) by {
            assert(t[j] == sorted[j + 1]);
        }
        if p < sorted.len() {
            assert(t[p - 1] == sorted[p]);
        }
        lemma_name_pos_step(t, e, p - 1);
    }
}

/// The settings of a plugin in the order the page lists them: by name.
pub fn sort_settings_by_name(items: Vec<SettingsEntry>) -> (r: Vec<SettingsEntry>)
    ensures
        settings_view(r@) == sort_by_name(settings_view(items@)),
{
    let ghost iv = settings_view(items@);
    let mut out: Vec<SettingsEntry> = Vec::new();
    let mut k: usize = 0;
    assert(settings_view(out@) =~= Seq::<SettingView>::empty());
    while k < items.len()
        invariant
            k <= items.len(),
            iv == settings_view(items@),
            settings_view(out@) == sort_by_name(iv.take(k as int)),
        decreases items.len() - k,
    {
        proof {
            assert(iv.take(k + 1).drop_last() =~= iv.take(k as int));
            assert(iv.take(k + 1).last() == iv[k as int]);
        }
        let ghost sorted = settings_view(out@);
        let e = items[k].copy();
        let key = chars_of(e.name.as_str());
        let mut p: usize = 0;
        while p < out.len() && !lex_lt_exec(&key, &chars_of(out[p].name.as_str()))
            invariant
                p <= out.len(),
                sorted == settings_view(out@),
                key@ == setting_view(e).name,
                forall|j: int| 0 <= j < p ==> !lex_lt(setting_view(e).name, (#[trigger] sorted[j]).name),
            decreases out.len() - p,
        {
            assert(sorted[p as int] == setting_view(out@[p as int]));
            p = p + 1;
        }
        proof {
            if p < out.len() {
                assert(sorted[p as int] == setting_view(out@[p as int]));
            }
            lemma_name_pos_step(sorted, setting_view(e), p as int);
        }
        out.insert(p, e);
        assert(settings_view(out@) =~= sorted.insert(p as int, iv[k as int]));
        k = k + 1;
    }
    assert(iv.take(items.len() as int) =~= iv);
    out
}

} // verus!

