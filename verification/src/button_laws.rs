//! What the edit prediction button shows and changes, entry by entry.

use crate::edit_prediction_button;
use crate::edit_prediction_button::{
    ActionView, ButtonView, ContentView, EditPredictionProvider, EditPredictionsMode, IconName,
    ItemView, MenuEntryView, ModelView, PredictionsView, SettingsView, Status,
};
use crate::text;
use vstd::prelude::*;

verus! {

/// The button is there exactly when AI is on, Copilot was chosen and runs. One that
/// failed says why; otherwise a click opens a menu, and the icon tells whether
/// predictions are on for the file in view.
pub proof fn law_the_button_shows_how_copilot_is_doing(
    button: ButtonView,
    settings: SettingsView,
    status: Option<Status>,
)
    ensures
        ({
            let model = edit_prediction_button::model_of(button, settings, status);
            let is_there = !settings.disable_ai && settings.provider
                == EditPredictionProvider::Copilot && status is Some;
            &&& model is Hidden <==> !is_there
            &&& is_there ==> (model is Failed <==> status->0 is Error)
            &&& model matches ModelView::Failed { icon, toast } ==> icon == IconName::CopilotError && (
            status matches Some(Status::Error(error)) && error@.is_suffix_of(toast))
            &&& model matches ModelView::Menu { icon } ==> {
                &&& icon == IconName::Copilot <==> status->0 is Authorized && button.editor_enabled
                    == Some(true)
                &&& icon == IconName::CopilotDisabled <==> status->0 is Authorized
                    && button.editor_enabled != Some(true)
                &&& icon == IconName::CopilotInit <==> status->0 is Other
            }
        }),
{
    if let Some(Status::Error(error)) = status {
        let toast = "Copilot can't be started: "@ + error@;
        assert(error@ =~= toast.subrange(toast.len() - error@.len(), toast.len() as int));
    }
}

/// Whether an entry of the menu says what is set, and would change that.
pub open spec fn says_what_is_set(
    entry: MenuEntryView,
    button: ButtonView,
    settings: SettingsView,
) -> bool {
    match entry.action {
        ActionView::ToggleBuffer => {
            &&& button.has_editor
            &&& entry.toggled == Some(button.editor_show_predictions)
            &&& entry.disabled == (button.language is Some && !settings.language_enabled)
        },
        ActionView::ToggleLanguage(language) => {
            &&& button.language == Some(language)
            &&& entry.label == language
            &&& entry.toggled == Some(settings.language_enabled) && !entry.disabled
        },
        ActionView::ToggleAllFiles => entry.toggled == Some(settings.globally_enabled)
            && !entry.disabled,
        ActionView::SetMode(mode) => entry.toggled == Some(settings.mode == mode)
            && !entry.disabled,
        ActionView::ToggleDataCollection => {
            &&& settings.provider == EditPredictionProvider::Zed
            &&& button.provider matches Some(data)
            &&& data.is_supported
            &&& entry.toggled == Some(data.is_enabled)
            &&& entry.disabled == !data.can_toggle
        },
        ActionView::SetNextEditSuggestions(on) => {
            &&& on == (settings.next_edit_suggestions == Some(false))
            &&& entry.toggled == Some(!on) && !entry.disabled
        },
        ActionView::PredictAtCursor => button.has_editor && entry.toggled is None && !entry.disabled,
        ActionView::SignIn | ActionView::HideCopilot => false,
        ActionView::Inform => entry.disabled,
        _ => entry.toggled is None && !entry.disabled,
    }
}

spec fn all_say(items: Seq<ItemView>, button: ButtonView, settings: SettingsView) -> bool {
    forall|k: int|
        0 <= k < items.len() ==> (#[trigger] items[k] matches ItemView::Entry(entry)
            ==> says_what_is_set(entry, button, settings))
}

proof fn lemma_all_say(
    a: Seq<ItemView>,
    b: Seq<ItemView>,
    button: ButtonView,
    settings: SettingsView,
)
    requires
        all_say(a, button, settings),
        all_say(b, button, settings),
    ensures
        all_say(a + b, button, settings),
{
    let all = a + b;
    assert forall|k: int| 0 <= k < all.len() implies (#[trigger] all[k] matches ItemView::Entry(
        entry,
    ) ==> says_what_is_set(entry, button, settings)) by {
        if k < a.len() {
            assert(all[k] == a[k]);
        } else {
            assert(all[k] == b[k - a.len()]);
        }
    }
}

/// Every entry of the menu for whoever is signed in says what is set, and nothing
/// is ticked that is off. Each of the two display modes is ticked exactly when the
/// other is not.
pub proof fn law_a_tick_says_what_is_set(button: ButtonView, settings: SettingsView, k: int)
    requires
        0 <= k < edit_prediction_button::copilot_context_menu(button, settings).len(),
    ensures
        edit_prediction_button::copilot_context_menu(button, settings)[k] matches ItemView::Entry(
            entry,
        ) ==> says_what_is_set(entry, button, settings),
{
    let heading = seq![ItemView::Header("Show Edit Predictions For"@)];
    let buffer = edit_prediction_button::buffer_items(button, settings);
    let language = edit_prediction_button::language_items(button, settings);
    let modes = edit_prediction_button::mode_items(settings);
    let collection = edit_prediction_button::collection_items(button, settings);
    let privacy = edit_prediction_button::privacy_items(button);
    let actions = edit_prediction_button::action_items(button);
    let providers = edit_prediction_button::provider_items();
    let suggests = edit_prediction_button::suggests_next_edits(settings);
    let own = seq![
        ItemView::Separator,
        ItemView::Entry(
            edit_prediction_button::toggle(
                "Copilot: Next Edit Suggestions"@,
                suggests,
                ActionView::SetNextEditSuggestions(!suggests),
            ),
        ),
        ItemView::Separator,
        ItemView::Entry(
            edit_prediction_button::plain(
                "Go to Copilot Settings"@,
                ActionView::OpenUrl(edit_prediction_button::settings_url(settings.enterprise_uri)),
            ),
        ),
        ItemView::Entry(edit_prediction_button::plain("Sign Out"@, ActionView::SignOut)),
    ];
    assert(all_say(heading, button, settings));
    assert(all_say(buffer, button, settings));
    assert(all_say(language, button, settings));
    assert(all_say(modes, button, settings));
    assert(all_say(collection, button, settings));
    assert(all_say(privacy, button, settings));
    assert(all_say(actions, button, settings));
    assert(all_say(providers, button, settings));
    assert(all_say(own, button, settings));
    let one = heading + buffer;
    lemma_all_say(heading, buffer, button, settings);
    let two = one + language;
    lemma_all_say(one, language, button, settings);
    let three = two + modes;
    lemma_all_say(two, modes, button, settings);
    let four = three + collection;
    lemma_all_say(three, collection, button, settings);
    let five = four + privacy;
    lemma_all_say(four, privacy, button, settings);
    let six = five + actions;
    lemma_all_say(five, actions, button, settings);
    let seven = six + providers;
    lemma_all_say(six, providers, button, settings);
    lemma_all_say(seven, own, button, settings);
    assert(edit_prediction_button::copilot_context_menu(button, settings) == seven + own);
}

/// Whether a menu has an entry that does something.
pub open spec fn offers(items: Seq<ItemView>, action: ActionView) -> bool {
    exists|k: int|
        0 <= k < items.len() && (#[trigger] items[k] matches ItemView::Entry(entry) && entry.action
            == action)
}

proof fn lemma_offers(a: Seq<ItemView>, b: Seq<ItemView>, action: ActionView)
    ensures
        offers(a, action) || offers(b, action) ==> offers(a + b, action),
{
    let all = a + b;
    if offers(a, action) {
        let k = choose|k: int|
            0 <= k < a.len() && (#[trigger] a[k] matches ItemView::Entry(entry) && entry.action
                == action);
        assert(all[k] == a[k]);
    } else if offers(b, action) {
        let k = choose|k: int|
            0 <= k < b.len() && (#[trigger] b[k] matches ItemView::Entry(entry) && entry.action
                == action);
        assert(all[a.len() + k] == b[k]);
    }
}

/// Whoever is signed in can always choose what predictions are shown for and how,
/// switch suggestions, and sign out; with an editor in view also for its buffer and
/// its language. Whoever is not can sign in or hide the button, and nothing else of
/// Copilot's.
pub proof fn law_the_menu_offers_what_can_be_changed(button: ButtonView, settings: SettingsView)
    ensures
        ({
            let menu = edit_prediction_button::copilot_context_menu(button, settings);
            &&& offers(menu, ActionView::ToggleAllFiles)
            &&& offers(menu, ActionView::SetMode(EditPredictionsMode::Eager))
            &&& offers(menu, ActionView::SetMode(EditPredictionsMode::Subtle))
            &&& offers(menu, ActionView::ConfigureExcludedFiles)
            &&& offers(
                menu,
                ActionView::SetNextEditSuggestions(
                    settings.next_edit_suggestions == Some(false),
                ),
            )
            &&& offers(menu, ActionView::SignOut)
            &&& button.has_editor ==> offers(menu, ActionView::ToggleBuffer) && offers(
                menu,
                ActionView::PredictAtCursor,
            )
            &&& button.language matches Some(language) ==> offers(
                menu,
                ActionView::ToggleLanguage(language),
            )
        }),
        ({
            let menu = edit_prediction_button::copilot_start_menu();
            &&& offers(menu, ActionView::SignIn) && offers(menu, ActionView::HideCopilot)
            &&& !offers(menu, ActionView::SignOut)
        }),
{
    let menu = edit_prediction_button::copilot_context_menu(button, settings);
    assert forall|action: ActionView|
        a_part_offers(button, settings, action) implies #[trigger] offers(menu, action) by {
        lemma_parts(button, settings, action);
    }
    let modes = edit_prediction_button::mode_items(settings);
    assert(modes[0]->Entry_0.action == ActionView::ToggleAllFiles);
    assert(offers(modes, ActionView::ToggleAllFiles));
    assert(modes[3]->Entry_0.action == ActionView::SetMode(EditPredictionsMode::Eager));
    assert(offers(modes, ActionView::SetMode(EditPredictionsMode::Eager)));
    assert(modes[4]->Entry_0.action == ActionView::SetMode(EditPredictionsMode::Subtle));
    assert(offers(modes, ActionView::SetMode(EditPredictionsMode::Subtle)));
    let privacy = edit_prediction_button::privacy_items(button);
    assert(privacy[0]->Entry_0.action == ActionView::ConfigureExcludedFiles);
    assert(offers(privacy, ActionView::ConfigureExcludedFiles));
    if button.has_editor {
        let buffer = edit_prediction_button::buffer_items(button, settings);
        assert(buffer[0]->Entry_0.action == ActionView::ToggleBuffer);
        assert(offers(buffer, ActionView::ToggleBuffer));
        let actions = edit_prediction_button::action_items(button);
        assert(actions[2]->Entry_0.action == ActionView::PredictAtCursor);
        assert(offers(actions, ActionView::PredictAtCursor));
    }
    if let Some(language) = button.language {
        let items = edit_prediction_button::language_items(button, settings);
        assert(items[0]->Entry_0.action == ActionView::ToggleLanguage(language));
        assert(offers(items, ActionView::ToggleLanguage(language)));
    }
    let at = menu.len() - 5;
    assert(menu[at + 1]->Entry_0.action == ActionView::SetNextEditSuggestions(
        settings.next_edit_suggestions == Some(false),
    ));
    assert(menu[at + 4]->Entry_0.action == ActionView::SignOut);
    let start = edit_prediction_button::copilot_start_menu();
    assert(start[0]->Entry_0.action == ActionView::SignIn);
    assert(start[1]->Entry_0.action == ActionView::HideCopilot);
    assert forall|k: int| 0 <= k < start.len() implies !(#[trigger] start[k] matches ItemView::Entry(
        entry,
    ) && entry.action == ActionView::SignOut) by {
        assert(start.len() == 4);
    }
}

/// Whether one of the parts of the menu offers something.
spec fn a_part_offers(button: ButtonView, settings: SettingsView, action: ActionView) -> bool {
    ||| offers(edit_prediction_button::buffer_items(button, settings), action)
    ||| offers(edit_prediction_button::language_items(button, settings), action)
    ||| offers(edit_prediction_button::mode_items(settings), action)
    ||| offers(edit_prediction_button::privacy_items(button), action)
    ||| offers(edit_prediction_button::action_items(button), action)
}

proof fn lemma_parts(button: ButtonView, settings: SettingsView, action: ActionView)
    requires
        a_part_offers(button, settings, action),
    ensures
        offers(edit_prediction_button::copilot_context_menu(button, settings), action),
{
    let heading = seq![ItemView::Header("Show Edit Predictions For"@)];
    let buffer = edit_prediction_button::buffer_items(button, settings);
    let language = edit_prediction_button::language_items(button, settings);
    let modes = edit_prediction_button::mode_items(settings);
    let collection = edit_prediction_button::collection_items(button, settings);
    let privacy = edit_prediction_button::privacy_items(button);
    let actions = edit_prediction_button::action_items(button);
    let one = heading + buffer;
    lemma_offers(heading, buffer, action);
    let two = one + language;
    lemma_offers(one, language, action);
    let three = two + modes;
    lemma_offers(two, modes, action);
    let four = three + collection;
    lemma_offers(three, collection, action);
    let five = four + privacy;
    lemma_offers(four, privacy, action);
    let six = five + actions;
    lemma_offers(five, actions, action);
    assert(six == edit_prediction_button::language_settings_menu(button, settings));
    let seven = six + edit_prediction_button::provider_items();
    lemma_offers(six, edit_prediction_button::provider_items(), action);
    let menu = edit_prediction_button::copilot_context_menu(button, settings);
    let rest = menu.skip(seven.len() as int);
    assert(menu =~= seven + rest);
    lemma_offers(seven, rest, action);
}

/// An enterprise's address leads to the same settings page however many slashes it
/// ends in.
pub proof fn law_slashes_lead_to_one_settings_page(stem: Seq<char>, slashes: nat)
    requires
        stem.len() > 0 ==> stem.last() != '/',
    ensures
        edit_prediction_button::settings_url(
            Some(stem + Seq::new(slashes, |i: int| '/')),
        ) == stem + "/settings/copilot"@,
    decreases slashes,
{
    let slash = |c: char| c == '/';
    let tail = Seq::new(slashes, |i: int| '/');
    let uri = stem + tail;
    lemma_end_without(stem, slashes);
    assert(uri.take(stem.len() as int) =~= stem);
}

proof fn lemma_end_without(stem: Seq<char>, slashes: nat)
    requires
        stem.len() > 0 ==> stem.last() != '/',
    ensures
        text::end_without(stem + Seq::new(slashes, |i: int| '/'), |c: char| c == '/')
            == stem.len(),
    decreases slashes,
{
    let slash = |c: char| c == '/';
    let uri = stem + Seq::new(slashes, |i: int| '/');
    if slashes == 0 {
        assert(uri =~= stem);
    } else {
        lemma_end_without(stem, (slashes - 1) as nat);
        assert(uri.last() == '/');
        assert(uri.drop_last() =~= stem + Seq::new((slashes - 1) as nat, |i: int| '/'));
    }
}

/// What a file says of edit predictions, with nothing said where it is silent.
pub open spec fn said(content: ContentView) -> PredictionsView {
    match content.edit_predictions {
        Some(predictions) => predictions,
        None => PredictionsView {
            provider: None,
            mode: None,
            enable_next_edit_suggestions: None,
            disabled_globs: None,
        },
    }
}

/// Choosing a provider writes that one, and switches AI on unless it is nobody.
/// Everything else the file says it still says.
pub proof fn law_a_chosen_provider_is_written(
    content: ContentView,
    provider: EditPredictionProvider,
)
    ensures
        ({
            let after = edit_prediction_button::choosing(content, provider);
            &&& after.edit_predictions == Some(
                PredictionsView { provider: Some(provider), ..said(content) },
            )
            &&& after.disable_ai == (if provider == EditPredictionProvider::Nobody {
                content.disable_ai
            } else {
                Some(false)
            })
            &&& after.languages == content.languages
        }),
{
}

/// Changing how predictions are shown writes the way asked for, and hides no other
/// setting; a file in which they are shown so already is left as it is.
pub proof fn law_a_display_mode_is_written(
    content: ContentView,
    current: EditPredictionsMode,
    mode: EditPredictionsMode,
)
    ensures
        ({
            let after = edit_prediction_button::showing(content, current, mode);
            &&& current == mode ==> after == content
            &&& current != mode ==> after.edit_predictions == Some(
                PredictionsView { mode: Some(mode), ..said(content) },
            )
            &&& after.disable_ai == content.disable_ai && after.languages == content.languages
        }),
{
}

/// Switching suggestions writes just that, and what was switched is what is then
/// offered the other way.
pub proof fn law_switched_suggestions_are_written(content: ContentView, on: bool)
    ensures
        ({
            let after = edit_prediction_button::suggesting(content, on);
            &&& after.edit_predictions == Some(
                PredictionsView { enable_next_edit_suggestions: Some(on), ..said(content) },
            )
            &&& after.disable_ai == content.disable_ai && after.languages == content.languages
            &&& edit_prediction_button::suggesting(after, !on)
                == edit_prediction_button::suggesting(content, !on)
        }),
{
}

/// The file then lists the globs that are disabled: those it listed, or none. It
/// says nothing else that it did not say, and a second time changes nothing.
pub proof fn law_the_disabled_globs_are_listed(content: ContentView)
    ensures
        ({
            let after = edit_prediction_button::listing_globs(content);
            &&& after.edit_predictions matches Some(predictions)
            &&& predictions == (PredictionsView {
                disabled_globs: predictions.disabled_globs,
                ..said(content)
            })
            &&& predictions.disabled_globs matches Some(globs)
            &&& if said(content).disabled_globs is Some {
                Some(globs) == said(content).disabled_globs
            } else {
                globs.len() == 0
            }
            &&& after.disable_ai == content.disable_ai && after.languages == content.languages
            &&& edit_prediction_button::listing_globs(after) == after
        }),
{
}

/// A language that is switched is then listed the other way of what was shown, and
/// is listed once more only where it was not listed before.
pub proof fn law_a_switched_language_is_listed(
    content: ContentView,
    name: Seq<char>,
    shown: bool,
)
    ensures
        ({
            let after = edit_prediction_button::switching(content, name, shown);
            let was_listed = exists|k: int|
                0 <= k < content.languages.len() && (#[trigger] content.languages[k]).0 == name;
            &&& after.languages.contains((name, Some(!shown)))
            &&& after.languages.len() == content.languages.len() + (if was_listed {
                0nat
            } else {
                1nat
            })
            &&& after.edit_predictions == content.edit_predictions && after.disable_ai
                == content.disable_ai
        }),
{
    let languages = content.languages;
    edit_prediction_button::lemma_language_bounds(languages, name);
    let at = edit_prediction_button::language_at(languages, name);
    let after = edit_prediction_button::switching(content, name, shown);
    assert(after.languages[at] == (name, Some(!shown)));
    if at < languages.len() {
        assert(languages[at].0 == name);
    }
}

} // verus!
