//! The edit prediction button of the status bar: what it looks like, the menus
//! it opens, and what their entries change in the settings.

use crate::paths;
use crate::text;
use crate::workspace_sidebar::Color;
use vstd::prelude::*;
use vstd::string::*;
use vstd::utf8::*;

verus! {

/// Who predicts edits.
#[derive(Clone, Copy, Debug, PartialEq, Eq, Structural)]
pub enum EditPredictionProvider {
    Nobody,
    Copilot,
    Zed,
    Other,
}

/// How predictions are shown.
#[derive(Clone, Copy, Debug, PartialEq, Eq, Structural)]
pub enum EditPredictionsMode {
    Eager,
    Subtle,
}

/// How Copilot is doing.
#[derive(Debug, PartialEq, Eq)]
pub enum Status {
    Error(String),
    Authorized,
    /// Neither: it is starting, or nobody is signed in.
    Other,
}

/// What a provider says of collecting data.
#[derive(Clone, Copy, Debug, PartialEq, Eq, Structural)]
pub struct DataCollection {
    pub is_supported: bool,
    pub is_enabled: bool,
    pub is_project_open_source: bool,
    pub can_toggle: bool,
}

/// The settings the button reads.
#[derive(Debug, PartialEq, Eq)]
pub struct PredictionSettings {
    pub disable_ai: bool,
    pub provider: EditPredictionProvider,
    pub mode: EditPredictionsMode,
    /// Whether predictions are shown for the language in view.
    pub language_enabled: bool,
    /// Whether predictions are shown for all files.
    pub globally_enabled: bool,
    pub next_edit_suggestions: Option<bool>,
    pub enterprise_uri: Option<String>,
}

/// What a [`PredictionSettings`] holds.
#[verifier::ext_equal]
pub struct SettingsView {
    pub disable_ai: bool,
    pub provider: EditPredictionProvider,
    pub mode: EditPredictionsMode,
    pub language_enabled: bool,
    pub globally_enabled: bool,
    pub next_edit_suggestions: Option<bool>,
    pub enterprise_uri: Option<Seq<char>>,
}

impl View for PredictionSettings {
    type V = SettingsView;

    open spec fn view(&self) -> SettingsView {
        SettingsView {
            disable_ai: self.disable_ai,
            provider: self.provider,
            mode: self.mode,
            language_enabled: self.language_enabled,
            globally_enabled: self.globally_enabled,
            next_edit_suggestions: self.next_edit_suggestions,
            enterprise_uri: text::opt(self.enterprise_uri),
        }
    }
}

/// An icon of the button or its menus.
#[derive(Clone, Copy, Debug, PartialEq, Eq, Structural)]
pub enum IconName {
    Check,
    Close,
    Copilot,
    CopilotDisabled,
    CopilotError,
    CopilotInit,
    FileGeneric,
    Lock,
    Settings,
    ZedPredict,
    /// The provider's own, for a file it does not predict in.
    ProviderDisabled,
}

/// What an entry of a menu does.
#[derive(Debug, PartialEq, Eq)]
pub enum MenuAction {
    /// Nothing: the entry only informs.
    Inform,
    ToggleBuffer,
    ToggleLanguage(String),
    ToggleAllFiles,
    SetMode(EditPredictionsMode),
    ToggleDataCollection,
    ConfigureExcludedFiles,
    OpenUrl(String),
    PredictAtCursor,
    OpenSettingsAt(String),
    SetNextEditSuggestions(bool),
    SignIn,
    HideCopilot,
    SignOut,
}

/// What a [`MenuAction`] holds.
#[verifier::ext_equal]
pub enum ActionView {
    Inform,
    ToggleBuffer,
    ToggleLanguage(Seq<char>),
    ToggleAllFiles,
    SetMode(EditPredictionsMode),
    ToggleDataCollection,
    ConfigureExcludedFiles,
    OpenUrl(Seq<char>),
    PredictAtCursor,
    OpenSettingsAt(Seq<char>),
    SetNextEditSuggestions(bool),
    SignIn,
    HideCopilot,
    SignOut,
}

impl View for MenuAction {
    type V = ActionView;

    open spec fn view(&self) -> ActionView {
        match *self {
            MenuAction::Inform => ActionView::Inform,
            MenuAction::ToggleBuffer => ActionView::ToggleBuffer,
            MenuAction::ToggleLanguage(name) => ActionView::ToggleLanguage(name@),
            MenuAction::ToggleAllFiles => ActionView::ToggleAllFiles,
            MenuAction::SetMode(mode) => ActionView::SetMode(mode),
            MenuAction::ToggleDataCollection => ActionView::ToggleDataCollection,
            MenuAction::ConfigureExcludedFiles => ActionView::ConfigureExcludedFiles,
            MenuAction::OpenUrl(url) => ActionView::OpenUrl(url@),
            MenuAction::PredictAtCursor => ActionView::PredictAtCursor,
            MenuAction::OpenSettingsAt(path) => ActionView::OpenSettingsAt(path@),
            MenuAction::SetNextEditSuggestions(on) => ActionView::SetNextEditSuggestions(on),
            MenuAction::SignIn => ActionView::SignIn,
            MenuAction::HideCopilot => ActionView::HideCopilot,
            MenuAction::SignOut => ActionView::SignOut,
        }
    }
}

/// The line below an entry's explanation: an icon and what it says.
#[derive(Debug, PartialEq, Eq)]
pub struct AsideNote {
    pub text: String,
    pub color: Color,
    pub icon: IconName,
    pub icon_color: Color,
}

/// What an [`AsideNote`] holds.
#[verifier::ext_equal]
pub struct NoteView {
    pub text: Seq<char>,
    pub color: Color,
    pub icon: IconName,
    pub icon_color: Color,
}

impl DeepView for AsideNote {
    type V = NoteView;

    open spec fn deep_view(&self) -> NoteView {
        NoteView {
            text: self.text@,
            color: self.color,
            icon: self.icon,
            icon_color: self.icon_color,
        }
    }
}

/// An entry of a menu.
#[derive(Debug, PartialEq, Eq)]
pub struct MenuEntry {
    pub label: String,
    /// Whether the entry is ticked, where it can be.
    pub toggled: Option<bool>,
    pub disabled: bool,
    pub icon: Option<IconName>,
    pub icon_color: Option<Color>,
    /// The explanation beside the menu.
    pub aside: Option<String>,
    pub note: Option<AsideNote>,
    pub action: MenuAction,
}

/// What a [`MenuEntry`] holds.
#[verifier::ext_equal]
pub struct MenuEntryView {
    pub label: Seq<char>,
    pub toggled: Option<bool>,
    pub disabled: bool,
    pub icon: Option<IconName>,
    pub icon_color: Option<Color>,
    pub aside: Option<Seq<char>>,
    pub note: Option<NoteView>,
    pub action: ActionView,
}

impl View for MenuEntry {
    type V = MenuEntryView;

    open spec fn view(&self) -> MenuEntryView {
        MenuEntryView {
            label: self.label@,
            toggled: self.toggled,
            disabled: self.disabled,
            icon: self.icon,
            icon_color: self.icon_color,
            aside: text::opt(self.aside),
            note: self.note.deep_view(),
            action: self.action@,
        }
    }
}

/// A line of a menu.
#[derive(Debug, PartialEq, Eq)]
pub enum MenuItem {
    Header(String),
    Separator,
    Entry(MenuEntry),
}

/// What a [`MenuItem`] holds.
#[verifier::ext_equal]
pub enum ItemView {
    Header(Seq<char>),
    Separator,
    Entry(MenuEntryView),
}

impl DeepView for MenuItem {
    type V = ItemView;

    open spec fn deep_view(&self) -> ItemView {
        match *self {
            MenuItem::Header(label) => ItemView::Header(label@),
            MenuItem::Separator => ItemView::Separator,
            MenuItem::Entry(entry) => ItemView::Entry(entry@),
        }
    }
}

/// An entry that is ticked or not.
pub open spec fn toggle(label: Seq<char>, on: bool, action: ActionView) -> MenuEntryView {
    MenuEntryView { toggled: Some(on), ..plain(label, action) }
}

/// An entry with nothing to it but its label.
pub open spec fn plain(label: Seq<char>, action: ActionView) -> MenuEntryView {
    MenuEntryView {
        label,
        toggled: None,
        disabled: false,
        icon: None,
        icon_color: None,
        aside: None,
        note: None,
        action,
    }
}

/// An entry with an icon.
pub open spec fn with_icon(
    label: Seq<char>,
    icon: IconName,
    color: Option<Color>,
    action: ActionView,
) -> MenuEntryView {
    MenuEntryView { icon: Some(icon), icon_color: color, ..plain(label, action) }
}

fn entry(label: &str, toggled: Option<bool>, action: MenuAction) -> (entry: MenuEntry)
    ensures
        entry@ == (MenuEntryView { toggled, ..plain(label@, action@) }),
{
    MenuEntry {
        label: label.to_owned(),
        toggled,
        disabled: false,
        icon: None,
        icon_color: None,
        aside: None,
        note: None,
        action,
    }
}

fn add_item(menu: &mut Vec<MenuItem>, item: MenuItem)
    ensures
        final(menu).deep_view() == old(menu).deep_view().push(item.deep_view()),
{
    let ghost before = menu.deep_view();
    menu.push(item);
    assert(menu.deep_view() =~= before.push(item.deep_view()));
}

fn add_entry(menu: &mut Vec<MenuItem>, entry: MenuEntry)
    ensures
        final(menu).deep_view() == old(menu).deep_view().push(ItemView::Entry(entry@)),
{
    add_item(menu, MenuItem::Entry(entry));
}

fn add_heading(menu: &mut Vec<MenuItem>, label: &str)
    ensures
        final(menu).deep_view() == old(menu).deep_view().push(ItemView::Header(label@)),
{
    add_item(menu, MenuItem::Header(label.to_owned()));
}

fn add_separator(menu: &mut Vec<MenuItem>)
    ensures
        final(menu).deep_view() == old(menu).deep_view().push(ItemView::Separator),
{
    add_item(menu, MenuItem::Separator);
}

/// What the button knows of the editor in view.
#[derive(Debug, PartialEq, Eq)]
pub struct EditorState {
    pub id: u64,
    pub language: Option<String>,
    /// Whether predictions are on for the file, where there is one.
    pub file_enabled: Option<bool>,
    pub shows_predictions: bool,
    /// What the editor's provider says of collecting data, where it has one.
    pub provider: Option<DataCollection>,
}

/// What a [`EditPredictionButton`] holds.
#[verifier::ext_equal]
pub struct ButtonView {
    pub watched: Option<u64>,
    pub editor_enabled: Option<bool>,
    pub editor_show_predictions: bool,
    pub has_editor: bool,
    pub language: Option<Seq<char>>,
    pub provider: Option<DataCollection>,
}

/// The button of the status bar.
pub struct EditPredictionButton {
    /// The editor that is watched.
    watched: Option<u64>,
    editor_enabled: Option<bool>,
    editor_show_predictions: bool,
    has_editor: bool,
    language: Option<String>,
    provider: Option<DataCollection>,
}

impl View for EditPredictionButton {
    type V = ButtonView;

    closed spec fn view(&self) -> ButtonView {
        ButtonView {
            watched: self.watched,
            editor_enabled: self.editor_enabled,
            editor_show_predictions: self.editor_show_predictions,
            has_editor: self.has_editor,
            language: text::opt(self.language),
            provider: self.provider,
        }
    }
}

/// What the button takes over from an editor.
pub open spec fn looking_at(button: ButtonView, editor: EditorState) -> ButtonView {
    ButtonView {
        editor_enabled: Some(
            match editor.file_enabled {
                Some(enabled) => enabled,
                None => true,
            },
        ),
        editor_show_predictions: editor.shows_predictions,
        has_editor: true,
        language: text::opt(editor.language),
        provider: editor.provider,
        ..button
    }
}

/// What the button looks like.
#[derive(Debug, PartialEq, Eq)]
pub enum ButtonModel {
    Hidden,
    /// A click shows the toast, whose button reinstalls Copilot.
    Failed { icon: IconName, toast: String },
    /// A click opens a menu.
    Menu { icon: IconName },
}

/// What a [`ButtonModel`] holds.
#[verifier::ext_equal]
#[allow(inconsistent_fields)]
pub enum ModelView {
    Hidden,
    Failed { icon: IconName, toast: Seq<char> },
    Menu { icon: IconName },
}

impl View for ButtonModel {
    type V = ModelView;

    open spec fn view(&self) -> ModelView {
        match *self {
            ButtonModel::Hidden => ModelView::Hidden,
            ButtonModel::Failed { icon, toast } => ModelView::Failed { icon, toast: toast@ },
            ButtonModel::Menu { icon } => ModelView::Menu { icon },
        }
    }
}

/// What the button looks like: hidden where it would have nothing to say.
pub open spec fn model_of(
    button: ButtonView,
    settings: SettingsView,
    status: Option<Status>,
) -> ModelView {
    if settings.disable_ai || settings.provider != EditPredictionProvider::Copilot {
        ModelView::Hidden
    } else {
        match status {
            None => ModelView::Hidden,
            Some(Status::Error(error)) => ModelView::Failed {
                icon: IconName::CopilotError,
                toast: "Copilot can't be started: "@ + error@,
            },
            Some(Status::Authorized) => ModelView::Menu {
                icon: if button.editor_enabled == Some(true) {
                    IconName::Copilot
                } else {
                    IconName::CopilotDisabled
                },
            },
            Some(Status::Other) => ModelView::Menu { icon: IconName::CopilotInit },
        }
    }
}

/// The entry for the buffer in view: off limits where its language is.
pub open spec fn buffer_items(button: ButtonView, settings: SettingsView) -> Seq<ItemView> {
    if !button.has_editor {
        Seq::empty()
    } else {
        let entry = toggle(
            "This Buffer"@,
            button.editor_show_predictions,
            ActionView::ToggleBuffer,
        );
        match button.language {
            Some(language) if !settings.language_enabled => seq![
                ItemView::Entry(
                    MenuEntryView {
                        disabled: true,
                        aside: Some("Edit predictions are disabled for "@ + language),
                        ..entry
                    },
                ),
            ],
            _ => seq![ItemView::Entry(entry)],
        }
    }
}

/// The entry for the language in view.
pub open spec fn language_items(button: ButtonView, settings: SettingsView) -> Seq<ItemView> {
    match button.language {
        Some(language) => seq![
            ItemView::Entry(
                toggle(language, settings.language_enabled, ActionView::ToggleLanguage(language)),
            ),
        ],
        None => Seq::empty(),
    }
}

/// The entry for all files, and those for how predictions are shown.
pub open spec fn mode_items(settings: SettingsView) -> Seq<ItemView> {
    seq![
        ItemView::Entry(
            toggle("All Files"@, settings.globally_enabled, ActionView::ToggleAllFiles),
        ),
        ItemView::Separator,
        ItemView::Header("Display Modes"@),
        ItemView::Entry(
            MenuEntryView {
                aside: Some(
                    "Display predictions inline when there are no language server completions available."@,
                ),
                ..toggle(
                    "Eager"@,
                    settings.mode == EditPredictionsMode::Eager,
                    ActionView::SetMode(EditPredictionsMode::Eager),
                )
            },
        ),
        ItemView::Entry(
            MenuEntryView {
                aside: Some(
                    "Display predictions inline only when holding a modifier key (alt by default)."@,
                ),
                ..toggle(
                    "Subtle"@,
                    settings.mode == EditPredictionsMode::Subtle,
                    ActionView::SetMode(EditPredictionsMode::Subtle),
                )
            },
        ),
        ItemView::Separator,
        ItemView::Header("Privacy"@),
    ]
}

/// What the entry for collecting data says of the project.
pub open spec fn collection_note(data: DataCollection) -> NoteView {
    if data.is_project_open_source && data.is_enabled {
        NoteView {
            text: "Project identified as open source, and you're sharing data."@,
            color: Color::Default,
            icon: IconName::Check,
            icon_color: Color::Success,
        }
    } else {
        NoteView {
            text: if data.is_project_open_source {
                "Project identified as open source, but you're not sharing data."@
            } else if data.is_enabled {
                "Project not identified as open source. No data captured."@
            } else {
                "Project not identified as open source, and setting turned off."@
            },
            color: Color::Muted,
            icon: IconName::Close,
            icon_color: Color::Muted,
        }
    }
}

/// The entry for collecting data.
pub open spec fn collection_entry(data: DataCollection) -> MenuEntryView {
    MenuEntryView {
        disabled: !data.can_toggle,
        icon: Some(IconName::Check),
        icon_color: Some(
            if data.is_project_open_source && data.is_enabled {
                Color::Success
            } else {
                Color::Accent
            },
        ),
        aside: Some(
            "Help us improve our open dataset model by sharing data from open source repositories. Zed must detect a license file in your repo for this setting to take effect. Files with sensitive data and secrets are excluded by default."@,
        ),
        note: Some(collection_note(data)),
        ..toggle(
            "Training Data Collection"@,
            data.is_enabled,
            ActionView::ToggleDataCollection,
        )
    }
}

/// The entries for collecting data, where the provider does.
pub open spec fn collection_items(button: ButtonView, settings: SettingsView) -> Seq<ItemView> {
    match button.provider {
        Some(data) if settings.provider == EditPredictionProvider::Zed && data.is_supported => {
            let entry = seq![ItemView::Entry(collection_entry(data))];
            if data.is_enabled && !data.is_project_open_source {
                entry.push(
                    ItemView::Entry(
                        MenuEntryView {
                            disabled: true,
                            ..with_icon(
                                "No data captured."@,
                                IconName::Close,
                                Some(Color::Error),
                                ActionView::Inform,
                            )
                        },
                    ),
                )
            } else {
                entry
            }
        },
        _ => Seq::empty(),
    }
}

/// The entries that follow, up to the one for a file that is excluded.
pub open spec fn privacy_items(button: ButtonView) -> Seq<ItemView> {
    let always = seq![
        ItemView::Entry(
            MenuEntryView {
                aside: Some(
                    "Open your settings to add sensitive paths for which Zed will never predict edits."@,
                ),
                ..with_icon(
                    "Configure Excluded Files"@,
                    IconName::Lock,
                    Some(Color::Muted),
                    ActionView::ConfigureExcludedFiles,
                )
            },
        ),
        ItemView::Entry(
            with_icon(
                "View Docs"@,
                IconName::FileGeneric,
                Some(Color::Muted),
                ActionView::OpenUrl("https://zed.dev/docs/ai/privacy-and-security"@),
            ),
        ),
    ];
    if button.editor_enabled == Some(false) {
        always.push(
            ItemView::Entry(
                MenuEntryView {
                    disabled: true,
                    ..with_icon(
                        "This file is excluded."@,
                        if button.provider is Some {
                            IconName::ProviderDisabled
                        } else {
                            IconName::ZedPredict
                        },
                        None,
                        ActionView::Inform,
                    )
                },
            ),
        )
    } else {
        always
    }
}

/// The entries that act on the editor in view.
pub open spec fn action_items(button: ButtonView) -> Seq<ItemView> {
    if button.has_editor {
        seq![
            ItemView::Separator,
            ItemView::Header("Actions"@),
            ItemView::Entry(plain("Predict Edit at Cursor"@, ActionView::PredictAtCursor)),
        ]
    } else {
        Seq::empty()
    }
}

/// The lines of the menu that every provider has.
pub open spec fn language_settings_menu(
    button: ButtonView,
    settings: SettingsView,
) -> Seq<ItemView> {
    seq![ItemView::Header("Show Edit Predictions For"@)] + buffer_items(button, settings)
        + language_items(button, settings) + mode_items(settings) + collection_items(
        button,
        settings,
    ) + privacy_items(button) + action_items(button)
}

/// The lines that lead to the providers' settings.
pub open spec fn provider_items() -> Seq<ItemView> {
    seq![
        ItemView::Separator,
        ItemView::Entry(
            with_icon(
                "Configure Providers"@,
                IconName::Settings,
                Some(Color::Muted),
                ActionView::OpenSettingsAt("edit_predictions.providers"@),
            ),
        ),
    ]
}

/// The menu for whoever is not signed in.
pub open spec fn copilot_start_menu() -> Seq<ItemView> {
    seq![
        ItemView::Entry(plain("Sign In to Copilot"@, ActionView::SignIn)),
        ItemView::Entry(plain("Disable Copilot"@, ActionView::HideCopilot)),
    ] + provider_items()
}

/// Whether suggestions for the next edit are on; they are unless switched off.
pub open spec fn suggests_next_edits(settings: SettingsView) -> bool {
    settings.next_edit_suggestions != Some(false)
}

/// The menu for whoever is signed in.
pub open spec fn copilot_context_menu(
    button: ButtonView,
    settings: SettingsView,
) -> Seq<ItemView> {
    let suggests = suggests_next_edits(settings);
    language_settings_menu(button, settings) + provider_items() + seq![
        ItemView::Separator,
        ItemView::Entry(
            toggle(
                "Copilot: Next Edit Suggestions"@,
                suggests,
                ActionView::SetNextEditSuggestions(!suggests),
            ),
        ),
        ItemView::Separator,
        ItemView::Entry(
            plain(
                "Go to Copilot Settings"@,
                ActionView::OpenUrl(settings_url(settings.enterprise_uri)),
            ),
        ),
        ItemView::Entry(plain("Sign Out"@, ActionView::SignOut)),
    ]
}

/// Where Copilot's settings are: below the enterprise's address, where there is
/// one, whatever slashes it ends in.
pub open spec fn settings_url(enterprise_uri: Option<Seq<char>>) -> Seq<char> {
    match enterprise_uri {
        Some(uri) => uri.take(text::end_without(uri, |c: char| c == '/')) + "/settings/copilot"@,
        None => "https://github.com/settings/copilot"@,
    }
}

pub fn copilot_settings_url(enterprise_uri: Option<&str>) -> (url: String)
    ensures
        url@ == settings_url(enterprise_uri.deep_view()),
{
    match enterprise_uri {
        None => "https://github.com/settings/copilot".to_owned(),
        Some(uri) => {
            let letters = text::characters(uri);
            let ghost slash = |c: char| c == '/';
            let mut end: usize = letters.len();
            assert(uri@.take(end as int) =~= uri@);
            while end > 0 && letters[end - 1] == '/'
                invariant
                    end <= letters.len(),
                    letters@ == uri@,
                    slash == (|c: char| c == '/'),
                    text::end_without(uri@, slash) == text::end_without(
                        uri@.take(end as int),
                        slash,
                    ),
                decreases end,
            {
                assert(uri@.take(end as int).drop_last() =~= uri@.take(end - 1));
                end = end - 1;
            }
            assert(uri@.take(end as int).len() == end);
            let kept = text::slice(uri, 0, end);
            assert(kept@ =~= uri@.take(end as int));
            text::joined(kept.as_str(), "/settings/copilot")
        },
    }
}

/// What is reported when the menu is opened.
#[derive(Debug, PartialEq, Eq)]
pub struct MenuOpened {
    pub event: &'static str,
    pub name: &'static str,
    pub provider: String,
    pub file_extension: Option<String>,
    pub edit_predictions_enabled_for_language: bool,
    pub is_via_ssh: bool,
}

/// What is reported when the menu of a provider is opened on a file. A project
/// that is gone is not a remote one.
pub fn edit_prediction_menu_opened(
    provider: &str,
    file_name: Option<&str>,
    edit_predictions_enabled_for_language: bool,
    is_via_ssh: Option<bool>,
) -> (report: MenuOpened)
    ensures
        report.event@ == "Toolbar Menu Opened"@,
        report.name@ == "Edit Predictions"@,
        report.provider@ == provider@,
        text::opt(report.file_extension) == (match file_name.deep_view() {
            Some(file_name) => paths::extension_of(file_name),
            None => None,
        }),
        report.edit_predictions_enabled_for_language == edit_predictions_enabled_for_language,
        report.is_via_ssh == (is_via_ssh == Some(true)),
{
    MenuOpened {
        event: "Toolbar Menu Opened",
        name: "Edit Predictions",
        provider: provider.to_owned(),
        file_extension: match file_name {
            Some(file_name) => paths::extension(file_name),
            None => None,
        },
        edit_predictions_enabled_for_language,
        is_via_ssh: match is_via_ssh {
            Some(is_via_ssh) => is_via_ssh,
            None => false,
        },
    }
}

impl EditPredictionButton {
    pub fn new() -> (button: Self)
        ensures
            button@ == (ButtonView {
                watched: None,
                editor_enabled: None,
                editor_show_predictions: true,
                has_editor: false,
                language: None,
                provider: None,
            }),
    {
        EditPredictionButton {
            watched: None,
            editor_enabled: None,
            editor_show_predictions: true,
            has_editor: false,
            language: None,
            provider: None,
        }
    }

    /// What the button looks like, with Copilot's status where it runs.
    pub fn render(&self, settings: &PredictionSettings, status: Option<Status>) -> (model:
        ButtonModel)
        ensures
            model@ == model_of(self@, settings@, status),
    {
        if settings.disable_ai || settings.provider != EditPredictionProvider::Copilot {
            return ButtonModel::Hidden;
        }
        match status {
            None => ButtonModel::Hidden,
            Some(Status::Error(error)) => ButtonModel::Failed {
                icon: IconName::CopilotError,
                toast: text::joined("Copilot can't be started: ", error.as_str()),
            },
            Some(Status::Authorized) => {
                let enabled = match self.editor_enabled {
                    Some(enabled) => enabled,
                    None => false,
                };
                ButtonModel::Menu {
                    icon: if enabled {
                        IconName::Copilot
                    } else {
                        IconName::CopilotDisabled
                    },
                }
            },
            Some(Status::Other) => ButtonModel::Menu { icon: IconName::CopilotInit },
        }
    }

    /// The menu the button opens, with Copilot's status by then. There is none
    /// once Copilot is gone.
    pub fn menu(&self, settings: &PredictionSettings, status: Option<Status>) -> (menu: Option<
        Vec<MenuItem>,
    >)
        ensures
            match status {
                None => menu is None,
                Some(Status::Authorized) => menu matches Some(menu) && menu.deep_view()
                    == copilot_context_menu(self@, settings@),
                Some(_) => menu matches Some(menu) && menu.deep_view() == copilot_start_menu(),
            },
    {
        match status {
            None => None,
            Some(Status::Authorized) => Some(self.build_copilot_context_menu(settings)),
            Some(_) => Some(self.build_copilot_start_menu()),
        }
    }

    fn add_configure_providers_item(&self, menu: &mut Vec<MenuItem>)
        ensures
            final(menu).deep_view() == old(menu).deep_view() + provider_items(),
    {
        let ghost before = menu.deep_view();
        add_separator(menu);
        let mut providers = entry(
            "Configure Providers",
            None,
            MenuAction::OpenSettingsAt("edit_predictions.providers".to_owned()),
        );
        providers.icon = Some(IconName::Settings);
        providers.icon_color = Some(Color::Muted);
        add_entry(menu, providers);
        assert(menu.deep_view() =~= before + provider_items());
    }

    pub fn build_copilot_start_menu(&self) -> (menu: Vec<MenuItem>)
        ensures
            menu.deep_view() == copilot_start_menu(),
    {
        let mut menu: Vec<MenuItem> = Vec::new();
        assert(menu.deep_view() =~= Seq::<ItemView>::empty());
        add_entry(&mut menu, entry("Sign In to Copilot", None, MenuAction::SignIn));
        add_entry(&mut menu, entry("Disable Copilot", None, MenuAction::HideCopilot));
        self.add_configure_providers_item(&mut menu);
        assert(menu.deep_view() =~= copilot_start_menu());
        menu
    }

    fn add_scopes(&self, menu: &mut Vec<MenuItem>, settings: &PredictionSettings)
        ensures
            final(menu).deep_view() == old(menu).deep_view() + buffer_items(self@, settings@)
                + language_items(self@, settings@),
    {
        let ghost before = menu.deep_view();
        if self.has_editor {
            let mut buffer = entry(
                "This Buffer",
                Some(self.editor_show_predictions),
                MenuAction::ToggleBuffer,
            );
            match &self.language {
                Some(language) => {
                    if !settings.language_enabled {
                        buffer.disabled = true;
                        buffer.aside = Some(
                            text::joined("Edit predictions are disabled for ", language.as_str()),
                        );
                    }
                },
                None => {},
            }
            add_entry(menu, buffer);
        }
        assert(menu.deep_view() =~= before + buffer_items(self@, settings@));
        let ghost before = menu.deep_view();
        match &self.language {
            Some(language) => {
                add_entry(
                    menu,
                    entry(
                        language.as_str(),
                        Some(settings.language_enabled),
                        MenuAction::ToggleLanguage(language.clone()),
                    ),
                );
            },
            None => {},
        }
        assert(menu.deep_view() =~= before + language_items(self@, settings@));
    }

    fn add_modes(&self, menu: &mut Vec<MenuItem>, settings: &PredictionSettings)
        ensures
            final(menu).deep_view() == old(menu).deep_view() + mode_items(settings@),
    {
        let ghost before = menu.deep_view();
        add_entry(
            menu,
            entry("All Files", Some(settings.globally_enabled), MenuAction::ToggleAllFiles),
        );
        add_separator(menu);
        add_heading(menu, "Display Modes");
        let mut eager = entry(
            "Eager",
            Some(settings.mode == EditPredictionsMode::Eager),
            MenuAction::SetMode(EditPredictionsMode::Eager),
        );
        eager.aside = Some(
            "Display predictions inline when there are no language server completions available.".to_owned(),
        );
        add_entry(menu, eager);
        let mut subtle = entry(
            "Subtle",
            Some(settings.mode == EditPredictionsMode::Subtle),
            MenuAction::SetMode(EditPredictionsMode::Subtle),
        );
        subtle.aside = Some(
            "Display predictions inline only when holding a modifier key (alt by default).".to_owned(),
        );
        add_entry(menu, subtle);
        add_separator(menu);
        add_heading(menu, "Privacy");
        assert(menu.deep_view() =~= before + mode_items(settings@));
    }

    fn add_data_collection(&self, menu: &mut Vec<MenuItem>, settings: &PredictionSettings)
        ensures
            final(menu).deep_view() == old(menu).deep_view() + collection_items(self@, settings@),
    {
        let ghost before = menu.deep_view();
        match self.provider {
            Some(data) => {
                if settings.provider == EditPredictionProvider::Zed && data.is_supported {
                    add_entry(menu, data_collection_entry(data));
                    if data.is_enabled && !data.is_project_open_source {
                        let mut warning = entry("No data captured.", None, MenuAction::Inform);
                        warning.disabled = true;
                        warning.icon = Some(IconName::Close);
                        warning.icon_color = Some(Color::Error);
                        add_entry(menu, warning);
                    }
                }
            },
            None => {},
        }
        assert(menu.deep_view() =~= before + collection_items(self@, settings@));
    }

    fn add_privacy(&self, menu: &mut Vec<MenuItem>)
        ensures
            final(menu).deep_view() == old(menu).deep_view() + privacy_items(self@),
    {
        let ghost before = menu.deep_view();
        let mut excluded = entry(
            "Configure Excluded Files",
            None,
            MenuAction::ConfigureExcludedFiles,
        );
        excluded.icon = Some(IconName::Lock);
        excluded.icon_color = Some(Color::Muted);
        excluded.aside = Some(
            "Open your settings to add sensitive paths for which Zed will never predict edits.".to_owned(),
        );
        add_entry(menu, excluded);
        let mut docs = entry(
            "View Docs",
            None,
            MenuAction::OpenUrl("https://zed.dev/docs/ai/privacy-and-security".to_owned()),
        );
        docs.icon = Some(IconName::FileGeneric);
        docs.icon_color = Some(Color::Muted);
        add_entry(menu, docs);
        let enabled = match self.editor_enabled {
            Some(enabled) => enabled,
            None => true,
        };
        if !enabled {
            let mut notice = entry("This file is excluded.", None, MenuAction::Inform);
            notice.disabled = true;
            notice.icon = Some(
                if self.provider.is_some() {
                    IconName::ProviderDisabled
                } else {
                    IconName::ZedPredict
                },
            );
            add_entry(menu, notice);
        }
        assert(menu.deep_view() =~= before + privacy_items(self@));
    }

    /// Adds the lines that every provider has to a menu.
    pub fn build_language_settings_menu(
        &self,
        menu: &mut Vec<MenuItem>,
        settings: &PredictionSettings,
    )
        ensures
            final(menu).deep_view() == old(menu).deep_view() + language_settings_menu(
                self@,
                settings@,
            ),
    {
        let ghost before = menu.deep_view();
        add_heading(menu, "Show Edit Predictions For");
        self.add_scopes(menu, settings);
        self.add_modes(menu, settings);
        self.add_data_collection(menu, settings);
        self.add_privacy(menu);
        let ghost above = menu.deep_view();
        if self.has_editor {
            add_separator(menu);
            add_heading(menu, "Actions");
            add_entry(
                menu,
                entry("Predict Edit at Cursor", None, MenuAction::PredictAtCursor),
            );
        }
        assert(menu.deep_view() =~= above + action_items(self@));
        assert(menu.deep_view() =~= before + language_settings_menu(self@, settings@));
    }

    fn build_copilot_context_menu(&self, settings: &PredictionSettings) -> (menu: Vec<MenuItem>)
        ensures
            menu.deep_view() == copilot_context_menu(self@, settings@),
    {
        let suggests = match settings.next_edit_suggestions {
            Some(on) => on,
            None => true,
        };
        let url = copilot_settings_url(text::borrowed(&settings.enterprise_uri));
        let mut menu: Vec<MenuItem> = Vec::new();
        assert(menu.deep_view() =~= Seq::<ItemView>::empty());
        self.build_language_settings_menu(&mut menu, settings);
        self.add_configure_providers_item(&mut menu);
        add_separator(&mut menu);
        add_entry(
            &mut menu,
            entry(
                "Copilot: Next Edit Suggestions",
                Some(suggests),
                MenuAction::SetNextEditSuggestions(!suggests),
            ),
        );
        add_separator(&mut menu);
        add_entry(&mut menu, entry("Go to Copilot Settings", None, MenuAction::OpenUrl(url)));
        add_entry(&mut menu, entry("Sign Out", None, MenuAction::SignOut));
        assert(menu.deep_view() =~= copilot_context_menu(self@, settings@));
        menu
    }

    /// Takes over what the editor in view says of itself.
    pub fn update_enabled(&mut self, editor: EditorState)
        ensures
            final(self)@ == looking_at(old(self)@, editor),
    {
        self.editor_enabled = Some(
            match editor.file_enabled {
                Some(enabled) => enabled,
                None => true,
            },
        );
        self.editor_show_predictions = editor.shows_predictions;
        self.provider = editor.provider;
        self.language = editor.language;
        self.has_editor = true;
    }

    /// Another item is in view: an editor is watched from now on, and anything
    /// else ends the watching.
    pub fn set_active_pane_item(&mut self, editor: Option<EditorState>)
        ensures
            final(self)@ == (match editor {
                Some(editor) => ButtonView {
                    watched: Some(editor.id),
                    ..looking_at(old(self)@, editor)
                },
                None => ButtonView {
                    watched: None,
                    editor_enabled: None,
                    language: None,
                    ..old(self)@
                },
            }),
    {
        match editor {
            Some(editor) => {
                self.watched = Some(editor.id);
                self.update_enabled(editor);
            },
            None => {
                self.language = None;
                self.watched = None;
                self.editor_enabled = None;
            },
        }
    }
}

fn data_collection_entry(data: DataCollection) -> (made: MenuEntry)
    ensures
        made@ == collection_entry(data),
{
    let shares = data.is_project_open_source && data.is_enabled;
    let note = AsideNote {
        text: if shares {
            "Project identified as open source, and you're sharing data.".to_owned()
        } else if data.is_project_open_source {
            "Project identified as open source, but you're not sharing data.".to_owned()
        } else if data.is_enabled {
            "Project not identified as open source. No data captured.".to_owned()
        } else {
            "Project not identified as open source, and setting turned off.".to_owned()
        },
        color: if shares {
            Color::Default
        } else {
            Color::Muted
        },
        icon: if shares {
            IconName::Check
        } else {
            IconName::Close
        },
        icon_color: if shares {
            Color::Success
        } else {
            Color::Muted
        },
    };
    let mut made = entry(
        "Training Data Collection",
        Some(data.is_enabled),
        MenuAction::ToggleDataCollection,
    );
    made.disabled = !data.can_toggle;
    made.icon = Some(IconName::Check);
    made.icon_color = Some(
        if shares {
            Color::Success
        } else {
            Color::Accent
        },
    );
    made.aside = Some(
        "Help us improve our open dataset model by sharing data from open source repositories. Zed must detect a license file in your repo for this setting to take effect. Files with sensitive data and secrets are excluded by default.".to_owned(),
    );
    made.note = Some(note);
    made
}

/// The providers that can be chosen: Copilot, for whoever is signed in.
pub fn get_available_providers(is_authenticated: bool) -> (providers: Vec<EditPredictionProvider>)
    ensures
        providers@ == (if is_authenticated {
            seq![EditPredictionProvider::Copilot]
        } else {
            Seq::empty()
        }),
{
    let mut providers: Vec<EditPredictionProvider> = Vec::new();
    if is_authenticated {
        providers.push(EditPredictionProvider::Copilot);
    }
    providers
}

/// What a settings file says of edit predictions. What it leaves out has its
/// default.
#[derive(Debug, PartialEq, Eq)]
pub struct EditPredictionSettingsContent {
    pub provider: Option<EditPredictionProvider>,
    pub mode: Option<EditPredictionsMode>,
    pub enable_next_edit_suggestions: Option<bool>,
    pub disabled_globs: Option<Vec<String>>,
}

/// What an [`EditPredictionSettingsContent`] holds.
#[verifier::ext_equal]
pub struct PredictionsView {
    pub provider: Option<EditPredictionProvider>,
    pub mode: Option<EditPredictionsMode>,
    pub enable_next_edit_suggestions: Option<bool>,
    pub disabled_globs: Option<Seq<Seq<char>>>,
}

impl DeepView for EditPredictionSettingsContent {
    type V = PredictionsView;

    open spec fn deep_view(&self) -> PredictionsView {
        PredictionsView {
            provider: self.provider,
            mode: self.mode,
            enable_next_edit_suggestions: self.enable_next_edit_suggestions,
            disabled_globs: self.disabled_globs.deep_view(),
        }
    }
}

/// What a settings file says, as far as it matters here.
#[derive(Debug, PartialEq, Eq)]
pub struct SettingsContent {
    pub disable_ai: Option<bool>,
    pub edit_predictions: Option<EditPredictionSettingsContent>,
    /// Whether predictions are shown, by language, where the file says so.
    pub languages: Vec<(String, Option<bool>)>,
}

/// What a [`SettingsContent`] holds.
#[verifier::ext_equal]
pub struct ContentView {
    pub disable_ai: Option<bool>,
    pub edit_predictions: Option<PredictionsView>,
    pub languages: Seq<(Seq<char>, Option<bool>)>,
}

impl View for SettingsContent {
    type V = ContentView;

    open spec fn view(&self) -> ContentView {
        ContentView {
            disable_ai: self.disable_ai,
            edit_predictions: self.edit_predictions.deep_view(),
            languages: self.languages.deep_view(),
        }
    }
}

/// What a file says of edit predictions, where it may say nothing.
pub open spec fn or_default(content: Option<PredictionsView>) -> PredictionsView {
    match content {
        Some(content) => content,
        None => PredictionsView {
            provider: None,
            mode: None,
            enable_next_edit_suggestions: None,
            disabled_globs: None,
        },
    }
}

fn predictions_or_default(content: Option<EditPredictionSettingsContent>) -> (known:
    EditPredictionSettingsContent)
    ensures
        known.deep_view() == or_default(content.deep_view()),
{
    match content {
        Some(content) => content,
        None => EditPredictionSettingsContent {
            provider: None,
            mode: None,
            enable_next_edit_suggestions: None,
            disabled_globs: None,
        },
    }
}

/// A file in which the provider is another.
pub open spec fn with_provider(
    content: ContentView,
    provider: EditPredictionProvider,
) -> ContentView {
    ContentView {
        edit_predictions: Some(
            PredictionsView {
                provider: Some(provider),
                ..or_default(content.edit_predictions)
            },
        ),
        ..content
    }
}

/// A file in which a provider was chosen.
pub open spec fn choosing(content: ContentView, provider: EditPredictionProvider) -> ContentView {
    with_provider(
        ContentView {
            disable_ai: if provider != EditPredictionProvider::Nobody {
                Some(false)
            } else {
                content.disable_ai
            },
            ..content
        },
        provider,
    )
}

/// A file in which predictions are shown one way, which were shown another.
pub open spec fn showing(
    content: ContentView,
    current: EditPredictionsMode,
    mode: EditPredictionsMode,
) -> ContentView {
    if current == mode {
        content
    } else {
        ContentView {
            edit_predictions: Some(
                PredictionsView { mode: Some(mode), ..or_default(content.edit_predictions) },
            ),
            ..content
        }
    }
}

/// A file in which suggestions for the next edit are on or off.
pub open spec fn suggesting(content: ContentView, on: bool) -> ContentView {
    ContentView {
        edit_predictions: Some(
            PredictionsView {
                enable_next_edit_suggestions: Some(on),
                ..or_default(content.edit_predictions)
            },
        ),
        ..content
    }
}

/// A file that lists the globs that are disabled.
pub open spec fn listing_globs(content: ContentView) -> ContentView {
    let predictions = or_default(content.edit_predictions);
    ContentView {
        edit_predictions: Some(
            PredictionsView {
                disabled_globs: Some(
                    match predictions.disabled_globs {
                        Some(globs) => globs,
                        None => Seq::empty(),
                    },
                ),
                ..predictions
            },
        ),
        ..content
    }
}

/// A file in which a language is turned to the other way of what is shown.
pub open spec fn switching(content: ContentView, language: Seq<char>, shown: bool) -> ContentView {
    ContentView { languages: with_language(content.languages, language, !shown), ..content }
}

/// Chooses a provider. Choosing one at all switches AI on.
pub fn set_completion_provider(
    content: SettingsContent,
    provider: EditPredictionProvider,
) -> (changed: SettingsContent)
    ensures
        changed@ == choosing(content@, provider),
{
    let mut predictions = predictions_or_default(content.edit_predictions);
    predictions.provider = Some(provider);
    SettingsContent {
        disable_ai: if provider != EditPredictionProvider::Nobody {
            Some(false)
        } else {
            content.disable_ai
        },
        edit_predictions: Some(predictions),
        languages: content.languages,
    }
}

/// Chooses no provider, whatever else the file says.
pub fn hide_copilot(content: SettingsContent) -> (changed: SettingsContent)
    ensures
        changed@ == with_provider(content@, EditPredictionProvider::Nobody),
{
    let mut predictions = predictions_or_default(content.edit_predictions);
    predictions.provider = Some(EditPredictionProvider::Nobody);
    SettingsContent {
        disable_ai: content.disable_ai,
        edit_predictions: Some(predictions),
        languages: content.languages,
    }
}

/// Changes how predictions are shown; the file stays as it is where they are
/// shown so already.
pub fn toggle_edit_prediction_mode(
    content: SettingsContent,
    current_mode: EditPredictionsMode,
    mode: EditPredictionsMode,
) -> (changed: SettingsContent)
    ensures
        changed@ == showing(content@, current_mode, mode),
{
    if current_mode == mode {
        return content;
    }
    let mut predictions = predictions_or_default(content.edit_predictions);
    predictions.mode = Some(mode);
    SettingsContent {
        disable_ai: content.disable_ai,
        edit_predictions: Some(predictions),
        languages: content.languages,
    }
}

/// Switches suggestions for the next edit on or off.
pub fn set_next_edit_suggestions(content: SettingsContent, on: bool) -> (changed: SettingsContent)
    ensures
        changed@ == suggesting(content@, on),
{
    let mut predictions = predictions_or_default(content.edit_predictions);
    predictions.enable_next_edit_suggestions = Some(on);
    SettingsContent {
        disable_ai: content.disable_ai,
        edit_predictions: Some(predictions),
        languages: content.languages,
    }
}

/// Makes sure the file lists the globs that are disabled, be it an empty list.
pub fn ensure_disabled_globs(content: SettingsContent) -> (changed: SettingsContent)
    ensures
        changed@ == listing_globs(content@),
{
    let mut predictions = predictions_or_default(content.edit_predictions);
    if predictions.disabled_globs.is_none() {
        let globs: Vec<String> = Vec::new();
        assert(globs.deep_view() =~= Seq::<Seq<char>>::empty());
        predictions.disabled_globs = Some(globs);
    }
    SettingsContent {
        disable_ai: content.disable_ai,
        edit_predictions: Some(predictions),
        languages: content.languages,
    }
}

/// Where a language is listed; the number of languages when it is not.
pub open spec fn language_at(languages: Seq<(Seq<char>, Option<bool>)>, name: Seq<char>) -> int
    decreases languages.len(),
{
    if languages.len() == 0 || languages[0].0 == name {
        0
    } else {
        1 + language_at(languages.drop_first(), name)
    }
}

/// A list in which a language says whether predictions are shown.
pub open spec fn with_language(
    languages: Seq<(Seq<char>, Option<bool>)>,
    name: Seq<char>,
    shown: bool,
) -> Seq<(Seq<char>, Option<bool>)> {
    let at = language_at(languages, name);
    if at < languages.len() {
        languages.update(at, (name, Some(shown)))
    } else {
        languages.push((name, Some(shown)))
    }
}

proof fn lemma_language_at(languages: Seq<(Seq<char>, Option<bool>)>, name: Seq<char>, n: int)
    requires
        0 <= n <= languages.len(),
        forall|k: int| 0 <= k < n ==> (#[trigger] languages[k]).0 != name,
        n < languages.len() ==> languages[n].0 == name,
    ensures
        language_at(languages, name) == n,
    decreases languages.len(),
{
    if languages.len() > 0 && languages[0].0 != name {
        let rest = languages.drop_first();
        assert forall|k: int| 0 <= k < n - 1 implies (#[trigger] rest[k]).0 != name by {
            assert(rest[k] == languages[k + 1]);
        }
        lemma_language_at(rest, name, n - 1);
    }
}

/// Turns predictions for a language to the other way of what is shown now.
pub fn toggle_show_edit_predictions_for_language(
    content: SettingsContent,
    language: &str,
    show_edit_predictions: bool,
) -> (changed: SettingsContent)
    ensures
        changed@ == switching(content@, language@, show_edit_predictions),
{
    let mut languages = content.languages;
    let ghost all = languages.deep_view();
    let mut at: usize = 0;
    while at < languages.len() && !text::same_text(languages[at].0.as_str(), language)
        invariant
            at <= languages.len(),
            all == languages.deep_view(),
            forall|k: int| 0 <= k < at ==> (#[trigger] all[k]).0 != language@,
        decreases languages.len() - at,
    {
        assert(all[at as int] == languages[at as int].deep_view());
        at = at + 1;
    }
    proof {
        if at < languages.len() {
            assert(all[at as int] == languages[at as int].deep_view());
        }
        lemma_language_at(all, language@, at as int);
    }
    let line = (language.to_owned(), Some(!show_edit_predictions));
    if at < languages.len() {
        languages[at] = line;
    } else {
        languages.push(line);
    }
    assert(languages.deep_view() =~= with_language(all, language@, !show_edit_predictions));
    SettingsContent {
        disable_ai: content.disable_ai,
        edit_predictions: content.edit_predictions,
        languages,
    }
}

/// Where a group of a pattern matched first in a text, in bytes, by `regex`.
pub uninterp spec fn first_capture(
    pattern: Seq<char>,
    group: Seq<char>,
    text: Seq<char>,
) -> Option<(usize, usize)>;

/// The pattern that finds the globs that are disabled in a settings file.
pub open spec fn disabled_globs_pattern() -> Seq<char> {
    r#""disabled_globs":\s*\[\s*(?P<content>(?:.|\n)*?)\s*\]"#@
}

/// The range of a named group in the first match of the pattern, by `regex`'s
/// `Regex::new`, `Regex::captures`, `Captures::name`, `Match::start` and
/// `Match::end`. The contract claims that pattern, group and text decide it,
/// and that it is a range of the text's bytes; what matches is left unsaid.
#[verifier::external_body]
fn capture(pattern: &str, group: &str, text: &str) -> (range: Option<(usize, usize)>)
    requires
        pattern@ == disabled_globs_pattern(),
    ensures
        range == first_capture(pattern@, group@, text@),
        range matches Some(range) ==> range.0 <= range.1 <= encode_utf8(text@).len(),
{
    let pattern = regex::Regex::new(pattern).ok()?;
    let captures = pattern.captures(text)?;
    let found = captures.name(group)?;
    Some((found.start(), found.end()))
}

/// What is selected in a settings file to edit the globs that are disabled:
/// what stands between the brackets, where the file lists them.
pub fn disabled_globs_range(text: &str) -> (range: Option<(usize, usize)>)
    ensures
        range == first_capture(disabled_globs_pattern(), "content"@, text@),
        range matches Some(range) ==> range.0 <= range.1 <= encode_utf8(text@).len(),
{
    capture(r#""disabled_globs":\s*\[\s*(?P<content>(?:.|\n)*?)\s*\]"#, "content", text)
}

/// Hiding the provider forgets which one was chosen, and nothing else.
pub proof fn law_hiding_undoes_only_the_choice(
    content: ContentView,
    provider: EditPredictionProvider,
)
    ensures
        with_provider(with_provider(content, provider), EditPredictionProvider::Nobody)
            == with_provider(content, EditPredictionProvider::Nobody),
{
}

/// Switching a language twice leaves it as it was listed, and no other language
/// is touched.
pub proof fn law_a_language_answers_for_itself(
    languages: Seq<(Seq<char>, Option<bool>)>,
    name: Seq<char>,
    shown: bool,
    again: bool,
)
    ensures
        with_language(with_language(languages, name, shown), name, again) == with_language(
            languages,
            name,
            again,
        ),
        forall|k: int|
            0 <= k < languages.len() && (#[trigger] languages[k]).0 != name ==> with_language(
                languages,
                name,
                shown,
            )[k] == languages[k],
{
    let at = language_at(languages, name);
    lemma_language_bounds(languages, name);
    let once = with_language(languages, name, shown);
    assert forall|k: int| 0 <= k < at implies (#[trigger] once[k]).0 != name by {
        assert(once[k] == languages[k]);
    }
    lemma_language_at(once, name, at);
    assert(with_language(once, name, again) =~= with_language(languages, name, again));
}

pub proof fn lemma_language_bounds(languages: Seq<(Seq<char>, Option<bool>)>, name: Seq<char>)
    ensures
        0 <= language_at(languages, name) <= languages.len(),
        language_at(languages, name) < languages.len() ==> languages[language_at(
            languages,
            name,
        )].0 == name,
        forall|k: int|
            0 <= k < language_at(languages, name) ==> (#[trigger] languages[k]).0 != name,
    decreases languages.len(),
{
    if languages.len() > 0 && languages[0].0 != name {
        let rest = languages.drop_first();
        lemma_language_bounds(rest, name);
        assert forall|k: int| 0 <= k < language_at(languages, name) implies (
        #[trigger] languages[k]).0 != name by {
            if k > 0 {
                assert(rest[k - 1] == languages[k]);
            }
        }
    }
}

} // verus!
