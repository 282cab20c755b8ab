//! User settings, their defaults and their normalization.
use vstd::prelude::*;
use crate::text::{all_ws, append_str, is_blank, lit, push_char, str_eq, views};

verus! {

broadcast use vstd::string::group_string_axioms;

#[derive(Debug, Clone, PartialEq)]
pub struct UserSettings {
    pub shortcut: String,
    pub selected_model_id: String,
    pub model_dir: String,
    pub input_model_id: String,
    pub input_model_dir: String,
    pub transcription_model_id: String,
    pub transcription_model_dir: String,
    pub output_dir: String,
    pub paste_mode: String,
    pub recording_mode: String,
    pub recording_source: String,
    pub acceleration_mode: String,
    pub directml_verified: bool,
    pub directml_verified_at: Option<String>,
    pub hotwords: Vec<HotwordRule>,
    pub term_categories: Vec<TermCategory>,
    pub export_format: String,
    pub theme: String,
    pub save_recordings: bool,
    pub launch_at_startup: bool,
    pub show_mini_window: bool,
}

#[derive(Debug, Clone, PartialEq)]
pub struct HotwordRule {
    pub id: String,
    pub source: String,
    pub target: String,
    pub enabled: bool,
    pub category_id: Option<String>,
    pub hit_count: Option<u32>,
    pub last_used_at: Option<String>,
}

#[derive(Debug, Clone, PartialEq)]
pub struct TermCategory {
    pub id: String,
    pub name: String,
    pub order: u32,
}

pub open spec fn opt_view(o: Option<String>) -> Option<Seq<char>> {
    match o {
        Some(s) => Some(s@),
        None => None,
    }
}

pub ghost struct HotwordRuleView {
    pub id: Seq<char>,
    pub source: Seq<char>,
    pub target: Seq<char>,
    pub enabled: bool,
    pub category_id: Option<Seq<char>>,
    pub hit_count: Option<u32>,
    pub last_used_at: Option<Seq<char>>,
}

pub ghost struct TermCategoryView {
    pub id: Seq<char>,
    pub name: Seq<char>,
    pub order: u32,
}

#[verifier::ext_equal]
pub ghost struct UserSettingsView {
    pub shortcut: Seq<char>,
    pub selected_model_id: Seq<char>,
    pub model_dir: Seq<char>,
    pub input_model_id: Seq<char>,
    pub input_model_dir: Seq<char>,
    pub transcription_model_id: Seq<char>,
    pub transcription_model_dir: Seq<char>,
    pub output_dir: Seq<char>,
    pub paste_mode: Seq<char>,
    pub recording_mode: Seq<char>,
    pub recording_source: Seq<char>,
    pub acceleration_mode: Seq<char>,
    pub directml_verified: bool,
    pub directml_verified_at: Option<Seq<char>>,
    pub hotwords: Seq<HotwordRuleView>,
    pub term_categories: Seq<TermCategoryView>,
    pub export_format: Seq<char>,
    pub theme: Seq<char>,
    pub save_recordings: bool,
    pub launch_at_startup: bool,
    pub show_mini_window: bool,
}

impl View for HotwordRule {
    type V = HotwordRuleView;

    open spec fn view(&self) -> HotwordRuleView {
        HotwordRuleView {
            id: self.id@,
            source: self.source@,
            target: self.target@,
            enabled: self.enabled,
            category_id: opt_view(self.category_id),
            hit_count: self.hit_count,
            last_used_at: opt_view(self.last_used_at),
        }
    }
}

impl View for TermCategory {
    type V = TermCategoryView;

    open spec fn view(&self) -> TermCategoryView {
        TermCategoryView { id: self.id@, name: self.name@, order: self.order }
    }
}

impl View for UserSettings {
    type V = UserSettingsView;

    open spec fn view(&self) -> UserSettingsView {
        UserSettingsView {
            shortcut: self.shortcut@,
            selected_model_id: self.selected_model_id@,
            model_dir: self.model_dir@,
            input_model_id: self.input_model_id@,
            input_model_dir: self.input_model_dir@,
            transcription_model_id: self.transcription_model_id@,
            transcription_model_dir: self.transcription_model_dir@,
            output_dir: self.output_dir@,
            paste_mode: self.paste_mode@,
            recording_mode: self.recording_mode@,
            recording_source: self.recording_source@,
            acceleration_mode: self.acceleration_mode@,
            directml_verified: self.directml_verified,
            directml_verified_at: opt_view(self.directml_verified_at),
            hotwords: self.hotwords@.map_values(|h: HotwordRule| h@),
            term_categories: self.term_categories@.map_values(|c: TermCategory| c@),
            export_format: self.export_format@,
            theme: self.theme@,
            save_recordings: self.save_recordings,
            launch_at_startup: self.launch_at_startup,
            show_mini_window: self.show_mini_window,
        }
    }
}

// ---------------------------------------------------------------------------
// Defaults
// ---------------------------------------------------------------------------

pub open spec fn default_term_categories() -> Seq<TermCategoryView> {
    seq![
        TermCategoryView { id: "people"@, name: "人名"@, order: 0 },
        TermCategoryView { id: "organizations"@, name: "机构"@, order: 1 },
        TermCategoryView { id: "projects"@, name: "项目"@, order: 2 },
        TermCategoryView { id: "technical"@, name: "技术词"@, order: 3 },
        TermCategoryView { id: "replacements"@, name: "常用替换"@, order: 4 },
    ]
}

pub open spec fn default_settings() -> UserSettingsView {
    UserSettingsView {
        shortcut: "CapsLock"@,
        selected_model_id: "sensevoice-small"@,
        model_dir: Seq::empty(),
        input_model_id: "sensevoice-small"@,
        input_model_dir: Seq::empty(),
        transcription_model_id: "qwen3-asr-0.6b"@,
        transcription_model_dir: Seq::empty(),
        output_dir: Seq::empty(),
        paste_mode: "clipboard"@,
        recording_mode: "hold"@,
        recording_source: "microphone"@,
        acceleration_mode: "cpu"@,
        directml_verified: false,
        directml_verified_at: None,
        hotwords: Seq::empty(),
        term_categories: default_term_categories(),
        export_format: "plainText"@,
        theme: "light"@,
        save_recordings: false,
        launch_at_startup: false,
        show_mini_window: true,
    }
}

pub open spec fn default_hotword_rule() -> HotwordRuleView {
    HotwordRuleView {
        id: Seq::empty(),
        source: Seq::empty(),
        target: Seq::empty(),
        enabled: true,
        category_id: None,
        hit_count: Some(0),
        last_used_at: None,
    }
}

impl Default for HotwordRule {
    fn default() -> (r: Self)
        ensures
            r@ == default_hotword_rule(),
    {
        HotwordRule {
            id: String::new(),
            source: String::new(),
            target: String::new(),
            enabled: true,
            category_id: None,
            hit_count: Some(0),
            last_used_at: None,
        }
    }
}

impl Default for TermCategory {
    fn default() -> (r: Self)
        ensures
            r@ == (TermCategoryView { id: Seq::empty(), name: Seq::empty(), order: 0 }),
    {
        TermCategory { id: String::new(), name: String::new(), order: 0 }
    }
}

fn term_category(id: &str, name: &str, order: u32) -> (r: TermCategory)
    ensures
        r@ == (TermCategoryView { id: id@, name: name@, order }),
{
    TermCategory { id: lit(id), name: lit(name), order }
}

pub fn default_term_categories_vec() -> (r: Vec<TermCategory>)
    ensures
        r@.map_values(|c: TermCategory| c@) == default_term_categories(),
{
    let mut v: Vec<TermCategory> = Vec::new();
    v.push(term_category("people", "人名", 0));
    v.push(term_category("organizations", "机构", 1));
    v.push(term_category("projects", "项目", 2));
    v.push(term_category("technical", "技术词", 3));
    v.push(term_category("replacements", "常用替换", 4));
    assert(v@.map_values(|c: TermCategory| c@) =~= default_term_categories());
    v
}

impl Default for UserSettings {
    fn default() -> (r: Self)
        ensures
            r@ == default_settings(),
    {
        let r = UserSettings {
            shortcut: lit("CapsLock"),
            selected_model_id: lit("sensevoice-small"),
            model_dir: String::new(),
            input_model_id: lit("sensevoice-small"),
            input_model_dir: String::new(),
            transcription_model_id: lit("qwen3-asr-0.6b"),
            transcription_model_dir: String::new(),
            output_dir: String::new(),
            paste_mode: lit("clipboard"),
            recording_mode: lit("hold"),
            recording_source: lit("microphone"),
            acceleration_mode: lit("cpu"),
            directml_verified: false,
            directml_verified_at: None,
            hotwords: Vec::new(),
            term_categories: default_term_categories_vec(),
            export_format: lit("plainText"),
            theme: lit("light"),
            save_recordings: false,
            launch_at_startup: false,
            show_mini_window: true,
        };
        assert(r@.hotwords =~= Seq::<HotwordRuleView>::empty());
        assert(r@ =~= default_settings());
        r
    }
}

// ---------------------------------------------------------------------------
// Normalization
// ---------------------------------------------------------------------------

pub open spec fn valid_paste_mode(s: Seq<char>) -> bool {
    s == "direct"@ || s == "clipboard"@
}

pub open spec fn valid_recording_mode(s: Seq<char>) -> bool {
    s == "hold"@ || s == "toggle"@ || s == "audioOnly"@
}

pub open spec fn valid_recording_source(s: Seq<char>) -> bool {
    s == "microphone"@ || s == "system"@ || s == "microphoneAndSystem"@
}

pub open spec fn valid_acceleration_mode(s: Seq<char>) -> bool {
    s == "cpu"@ || s == "directml"@
}

pub open spec fn valid_export_format(s: Seq<char>) -> bool {
    s == "plainText"@ || s == "timelineText"@ || s == "timelineTxt"@ || s == "srt"@ || s
        == "resolveMarkers"@
}

pub open spec fn valid_theme(s: Seq<char>) -> bool {
    s == "light"@ || s == "dark"@
}

pub open spec fn keep_or(s: Seq<char>, valid: bool, fallback: Seq<char>) -> Seq<char> {
    if valid {
        s
    } else {
        fallback
    }
}

/// What `UserSettings::normalized` makes of a settings value: blank
/// identifiers and out-of-range modes fall back to the defaults, model
/// directories fall back to the shared model directory, an unverified DirectML
/// state forgets its timestamp and an empty category list is restored.
pub open spec fn normalize(s: UserSettingsView) -> UserSettingsView {
    let d = default_settings();
    let shortcut = if all_ws(s.shortcut) {
        d.shortcut
    } else {
        s.shortcut
    };
    let selected = if all_ws(s.selected_model_id) {
        d.selected_model_id
    } else {
        s.selected_model_id
    };
    let input = if all_ws(s.input_model_id) {
        selected
    } else {
        s.input_model_id
    };
    let transcription = if all_ws(s.transcription_model_id) {
        if input == selected {
            selected
        } else {
            d.transcription_model_id
        }
    } else {
        s.transcription_model_id
    };
    let input_dir = if all_ws(s.input_model_dir) && !all_ws(s.model_dir) {
        s.model_dir
    } else {
        s.input_model_dir
    };
    let transcription_dir = if all_ws(s.transcription_model_dir) && !all_ws(s.model_dir) {
        s.model_dir
    } else {
        s.transcription_model_dir
    };
    UserSettingsView {
        shortcut,
        selected_model_id: selected,
        input_model_id: input,
        transcription_model_id: transcription,
        input_model_dir: input_dir,
        transcription_model_dir: transcription_dir,
        paste_mode: keep_or(s.paste_mode, valid_paste_mode(s.paste_mode), d.paste_mode),
        recording_mode: keep_or(
            s.recording_mode,
            valid_recording_mode(s.recording_mode),
            d.recording_mode,
        ),
        recording_source: keep_or(
            s.recording_source,
            valid_recording_source(s.recording_source),
            d.recording_source,
        ),
        acceleration_mode: keep_or(
            s.acceleration_mode,
            valid_acceleration_mode(s.acceleration_mode),
            d.acceleration_mode,
        ),
        directml_verified_at: if s.directml_verified {
            s.directml_verified_at
        } else {
            None
        },
        export_format: keep_or(
            s.export_format,
            valid_export_format(s.export_format),
            d.export_format,
        ),
        theme: keep_or(s.theme, valid_theme(s.theme), d.theme),
        term_categories: if s.term_categories.len() == 0 {
            d.term_categories
        } else {
            s.term_categories
        },
        ..s
    }
}

fn one_of2(s: &str, a: &str, b: &str) -> (r: bool)
    ensures
        r == (s@ == a@ || s@ == b@),
{
    str_eq(s, a) || str_eq(s, b)
}

fn one_of3(s: &str, a: &str, b: &str, c: &str) -> (r: bool)
    ensures
        r == (s@ == a@ || s@ == b@ || s@ == c@),
{
    str_eq(s, a) || str_eq(s, b) || str_eq(s, c)
}

fn or_if_blank(s: String, fallback: &str) -> (r: String)
    ensures
        r@ == (if all_ws(s@) {
            fallback@
        } else {
            s@
        }),
{
    if is_blank(s.as_str()) {
        lit(fallback)
    } else {
        s
    }
}

fn dir_or_shared(s: String, shared: &String) -> (r: String)
    ensures
        r@ == (if all_ws(s@) && !all_ws(shared@) {
            shared@
        } else {
            s@
        }),
{
    if is_blank(s.as_str()) && !is_blank(shared.as_str()) {
        shared.clone()
    } else {
        s
    }
}

fn keep_if(s: String, valid: bool, fallback: &str) -> (r: String)
    ensures
        r@ == keep_or(s@, valid, fallback@),
{
    if valid {
        s
    } else {
        lit(fallback)
    }
}

impl UserSettings {
    pub fn normalized(self) -> (r: Self)
        ensures
            r@ == normalize(self@),
    {
        let ghost old_view = self@;
        let UserSettings {
            shortcut,
            selected_model_id,
            model_dir,
            input_model_id,
            input_model_dir,
            transcription_model_id,
            transcription_model_dir,
            output_dir,
            paste_mode,
            recording_mode,
            recording_source,
            acceleration_mode,
            directml_verified,
            directml_verified_at,
            hotwords,
            term_categories,
            export_format,
            theme,
            save_recordings,
            launch_at_startup,
            show_mini_window,
        } = self;
        let shortcut = or_if_blank(shortcut, "CapsLock");
        let selected_model_id = or_if_blank(selected_model_id, "sensevoice-small");
        let input_model_id = if is_blank(input_model_id.as_str()) {
            selected_model_id.clone()
        } else {
            input_model_id
        };
        let transcription_model_id = if is_blank(transcription_model_id.as_str()) {
            if str_eq(input_model_id.as_str(), selected_model_id.as_str()) {
                selected_model_id.clone()
            } else {
                lit("qwen3-asr-0.6b")
            }
        } else {
            transcription_model_id
        };
        let input_model_dir = dir_or_shared(input_model_dir, &model_dir);
        let transcription_model_dir = dir_or_shared(transcription_model_dir, &model_dir);
        let v = one_of2(paste_mode.as_str(), "direct", "clipboard");
        let paste_mode = keep_if(paste_mode, v, "clipboard");
        let v = one_of3(recording_mode.as_str(), "hold", "toggle", "audioOnly");
        let recording_mode = keep_if(recording_mode, v, "hold");
        let v = one_of3(recording_source.as_str(), "microphone", "system", "microphoneAndSystem");
        let recording_source = keep_if(recording_source, v, "microphone");
        let v = one_of2(acceleration_mode.as_str(), "cpu", "directml");
        let acceleration_mode = keep_if(acceleration_mode, v, "cpu");
        let directml_verified_at = if directml_verified {
            directml_verified_at
        } else {
            None
        };
        let v = one_of3(export_format.as_str(), "plainText", "timelineText", "timelineTxt")
            || one_of2(export_format.as_str(), "srt", "resolveMarkers");
        let export_format = keep_if(export_format, v, "plainText");
        let v = one_of2(theme.as_str(), "light", "dark");
        let theme = keep_if(theme, v, "light");
        let term_categories = if term_categories.len() == 0 {
            default_term_categories_vec()
        } else {
            term_categories
        };
        let r = UserSettings {
            shortcut,
            selected_model_id,
            model_dir,
            input_model_id,
            input_model_dir,
            transcription_model_id,
            transcription_model_dir,
            output_dir,
            paste_mode,
            recording_mode,
            recording_source,
            acceleration_mode,
            directml_verified,
            directml_verified_at,
            hotwords,
            term_categories,
            export_format,
            theme,
            save_recordings,
            launch_at_startup,
            show_mini_window,
        };
        assert(r@ =~= normalize(old_view));
        r
    }
}

/// Normalizing keeps every supported choice as it is: each export format
/// (plain text, timeline text, timeline TXT, SRT, Resolve markers), paste mode,
/// recording mode and source, acceleration mode and theme that the app offers
/// comes back unchanged.
pub proof fn lemma_normalize_keeps_supported_choices(s: UserSettingsView)
    ensures
        (s.export_format == "plainText"@ || s.export_format == "timelineText"@ || s.export_format
            == "timelineTxt"@ || s.export_format == "srt"@ || s.export_format == "resolveMarkers"@)
            ==> normalize(s).export_format == s.export_format,
        (s.paste_mode == "direct"@ || s.paste_mode == "clipboard"@) ==> normalize(s).paste_mode
            == s.paste_mode,
        (s.recording_mode == "hold"@ || s.recording_mode == "toggle"@ || s.recording_mode
            == "audioOnly"@) ==> normalize(s).recording_mode == s.recording_mode,
        (s.recording_source == "microphone"@ || s.recording_source == "system"@
            || s.recording_source == "microphoneAndSystem"@) ==> normalize(s).recording_source
            == s.recording_source,
        (s.acceleration_mode == "cpu"@ || s.acceleration_mode == "directml"@) ==> normalize(
            s,
        ).acceleration_mode == s.acceleration_mode,
        (s.theme == "light"@ || s.theme == "dark"@) ==> normalize(s).theme == s.theme,
{
}

/// Normalizing twice gives the same settings as normalizing once.
pub proof fn lemma_normalize_idempotent(s: UserSettingsView)
    ensures
        normalize(normalize(s)) == normalize(s),
{
    reveal_strlit("CapsLock");
    reveal_strlit("sensevoice-small");
    reveal_strlit("qwen3-asr-0.6b");
    let n = normalize(s);
    assert(!all_ws("CapsLock"@)) by {
        assert(!crate::text::is_ws("CapsLock"@[0]));
    }
    assert(!all_ws("sensevoice-small"@)) by {
        assert(!crate::text::is_ws("sensevoice-small"@[0]));
    }
    assert(!all_ws("qwen3-asr-0.6b"@)) by {
        assert(!crate::text::is_ws("qwen3-asr-0.6b"@[0]));
    }
    assert(normalize(n) =~= n);
}

/// The default settings are already normalized.
pub proof fn lemma_default_is_normalized()
    ensures
        normalize(default_settings()) == default_settings(),
{
    reveal_strlit("CapsLock");
    reveal_strlit("sensevoice-small");
    reveal_strlit("qwen3-asr-0.6b");
    assert(!all_ws("qwen3-asr-0.6b"@)) by {
        assert(!crate::text::is_ws("qwen3-asr-0.6b"@[0]));
    }
    assert(!all_ws("CapsLock"@)) by {
        assert(!crate::text::is_ws("CapsLock"@[0]));
    }
    assert(!all_ws("sensevoice-small"@)) by {
        assert(!crate::text::is_ws("sensevoice-small"@[0]));
    }
    assert(all_ws(Seq::<char>::empty()));
    assert(normalize(default_settings()) =~= default_settings());
}


/// The `reg` command line that adds this program, quoted, to the user's
/// Windows startup list, or removes it.
pub fn startup_registry_args(enabled: bool, executable: &str) -> (r: Vec<String>)
    ensures
        enabled ==> views(r@) == seq![
            "add"@,
            "HKCU\\Software\\Microsoft\\Windows\\CurrentVersion\\Run"@,
            "/v"@,
            "Hi-Voicer"@,
            "/t"@,
            "REG_SZ"@,
            "/d"@,
            seq!['"'] + executable@ + seq!['"'],
            "/f"@,
        ],
        !enabled ==> views(r@) == seq![
            "delete"@,
            "HKCU\\Software\\Microsoft\\Windows\\CurrentVersion\\Run"@,
            "/v"@,
            "Hi-Voicer"@,
            "/f"@,
        ],
{
    let key = "HKCU\\Software\\Microsoft\\Windows\\CurrentVersion\\Run";
    if enabled {
        let mut quoted = String::new();
        push_char(&mut quoted, '"');
        append_str(&mut quoted, executable);
        push_char(&mut quoted, '"');
        assert(quoted@ =~= seq!['"'] + executable@ + seq!['"']);
        let r = vec![
            lit("add"),
            lit(key),
            lit("/v"),
            lit("Hi-Voicer"),
            lit("/t"),
            lit("REG_SZ"),
            lit("/d"),
            quoted,
            lit("/f"),
        ];
        assert(views(r@) =~= seq![
            "add"@,
            key@,
            "/v"@,
            "Hi-Voicer"@,
            "/t"@,
            "REG_SZ"@,
            "/d"@,
            seq!['"'] + executable@ + seq!['"'],
            "/f"@,
        ]);
        r
    } else {
        let r = vec![lit("delete"), lit(key), lit("/v"), lit("Hi-Voicer"), lit("/f")];
        assert(views(r@) =~= seq!["delete"@, key@, "/v"@, "Hi-Voicer"@, "/f"@]);
        r
    }
}

} // verus!
