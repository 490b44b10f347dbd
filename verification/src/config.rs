//! Collector configuration: display mode of the menu-bar widget, timing
//! floors, exclusion defaults, and shortcut-rule defaults.

use crate::sort::{sort_by_stable, sort_vec, views_of};
use crate::text::{dedup_adj, dedup_adjacent, lex_le, norm_token, normalize_token, str_eq};
use vstd::prelude::*;

verus! {

/// How the menu-bar widget renders its summary.
#[derive(Clone, Copy, PartialEq, Eq, Structural, Debug)]
pub enum MenuBarDisplayMode {
    IconOnly,
    TextOnly,
    IconText,
}

impl MenuBarDisplayMode {
    /// The stable identifier of each mode.
    pub open spec fn spec_label(self) -> Seq<char> {
        match self {
            MenuBarDisplayMode::IconOnly => "icon_only"@,
            MenuBarDisplayMode::TextOnly => "text_only"@,
            MenuBarDisplayMode::IconText => "icon_text"@,
        }
    }

    pub fn as_str(&self) -> (r: &'static str)
        ensures
            r@ == self.spec_label(),
    {
        match self {
            MenuBarDisplayMode::IconOnly => "icon_only",
            MenuBarDisplayMode::TextOnly => "text_only",
            MenuBarDisplayMode::IconText => "icon_text",
        }
    }

    /// The mode a stable identifier names, if any.
    pub open spec fn spec_of_label(s: Seq<char>) -> Option<MenuBarDisplayMode> {
        if s == "icon_only"@ {
            Some(MenuBarDisplayMode::IconOnly)
        } else if s == "text_only"@ {
            Some(MenuBarDisplayMode::TextOnly)
        } else if s == "icon_text"@ {
            Some(MenuBarDisplayMode::IconText)
        } else {
            None
        }
    }

    pub fn from_str(value: &str) -> (r: Option<MenuBarDisplayMode>)
        ensures
            r == Self::spec_of_label(value@),
    {
        if str_eq(value, "icon_only") {
            Some(MenuBarDisplayMode::IconOnly)
        } else if str_eq(value, "text_only") {
            Some(MenuBarDisplayMode::TextOnly)
        } else if str_eq(value, "icon_text") {
            Some(MenuBarDisplayMode::IconText)
        } else {
            None
        }
    }
}

impl Default for MenuBarDisplayMode {
    fn default() -> (r: Self)
        ensures
            r == MenuBarDisplayMode::IconText,
    {
        MenuBarDisplayMode::IconText
    }
}

/// User configuration read once at collector construction.
pub struct AppConfig {
    /// Whether key presses with a held modifier are ignored entirely.
    pub ignore_key_combos: bool,
    /// Poll period of the tick thread, in seconds.
    pub collector_tick_interval_secs: u64,
    /// Period between persistence flushes, in seconds.
    pub flush_interval_secs: u64,
    /// Largest gap between counted key-downs inside one session, in seconds.
    pub session_gap_secs: u64,
    /// Refresh period of the menu-bar summary, in seconds.
    pub tray_update_interval_secs: u64,
    /// Menu-bar widget rendering mode.
    pub menu_bar_display_mode: MenuBarDisplayMode,
    /// Application identifiers excluded from capture.
    pub excluded_bundle_ids: Vec<String>,
    /// Whether the one-time password-manager exclusion suggestion was handled.
    pub one_password_suggestion_handled: bool,
    /// Whether a counted shortcut must include cmd or ctrl.
    pub shortcut_require_cmd_or_ctrl: bool,
    /// Whether opt alone qualifies as a shortcut modifier.
    pub shortcut_allow_alt_only: bool,
    /// Minimum number of held modifiers for a counted shortcut.
    pub shortcut_min_modifiers: u8,
    /// When non-empty, only these shortcut ids are counted.
    pub shortcut_allowlist: Vec<String>,
    /// Shortcut ids never counted; stronger than the allowlist.
    pub shortcut_blocklist: Vec<String>,
}

/// The default exclusion list: the common password managers, lowercased.
pub open spec fn default_excluded_ids() -> Seq<Seq<char>> {
    seq![
        "com.1password.1password"@,
        "com.agilebits.onepassword7"@,
        "com.apple.keychainaccess"@,
        "com.bitwarden.desktop"@,
        "com.dashlane.dashlanephonefinal"@,
        "com.lastpass.lastpass"@,
        "com.roboform.roboform"@,
        "com.stickypassword.mac"@,
    ]
}

fn default_excluded_vec() -> (r: Vec<String>)
    ensures
        views_of(r@) == default_excluded_ids(),
{
    let mut v: Vec<String> = Vec::new();
    v.push(String::from_str("com.1password.1password"));
    v.push(String::from_str("com.agilebits.onepassword7"));
    v.push(String::from_str("com.apple.keychainaccess"));
    v.push(String::from_str("com.bitwarden.desktop"));
    v.push(String::from_str("com.dashlane.dashlanephonefinal"));
    v.push(String::from_str("com.lastpass.lastpass"));
    v.push(String::from_str("com.roboform.roboform"));
    v.push(String::from_str("com.stickypassword.mac"));
    proof {
        assert(views_of(v@) =~= default_excluded_ids());
    }
    v
}

impl Default for AppConfig {
    fn default() -> (r: Self)
        ensures
            r.ignore_key_combos == false,
            r.collector_tick_interval_secs == 1,
            r.flush_interval_secs == 60,
            r.session_gap_secs == 5,
            r.tray_update_interval_secs == 1,
            r.menu_bar_display_mode == MenuBarDisplayMode::IconText,
            views_of(r.excluded_bundle_ids@) == default_excluded_ids(),
            r.one_password_suggestion_handled == false,
            r.shortcut_require_cmd_or_ctrl == true,
            r.shortcut_allow_alt_only == false,
            r.shortcut_min_modifiers == 1,
            r.shortcut_allowlist@.len() == 0,
            r.shortcut_blocklist@.len() == 0,
    {
        AppConfig {
            ignore_key_combos: false,
            collector_tick_interval_secs: 1,
            flush_interval_secs: 60,
            session_gap_secs: 5,
            tray_update_interval_secs: 1,
            menu_bar_display_mode: MenuBarDisplayMode::IconText,
            excluded_bundle_ids: default_excluded_vec(),
            one_password_suggestion_handled: false,
            shortcut_require_cmd_or_ctrl: true,
            shortcut_allow_alt_only: false,
            shortcut_min_modifiers: 1,
            shortcut_allowlist: Vec::new(),
            shortcut_blocklist: Vec::new(),
        }
    }
}

/// An interval given in seconds, floored at one second, as milliseconds;
/// values too large for sixty-four bits saturate.
pub open spec fn interval_ms_of_secs(secs: u64) -> u64 {
    let floored: u64 = if secs < 1 {
        1
    } else {
        secs
    };
    if floored > u64::MAX / 1000 {
        u64::MAX
    } else {
        (floored * 1000) as u64
    }
}

impl AppConfig {
    pub fn collector_tick_interval(&self) -> (r: u64)
        ensures
            r == interval_ms_of_secs(self.collector_tick_interval_secs),
    {
        interval_ms(self.collector_tick_interval_secs)
    }

    pub fn flush_interval(&self) -> (r: u64)
        ensures
            r == interval_ms_of_secs(self.flush_interval_secs),
    {
        interval_ms(self.flush_interval_secs)
    }

    pub fn session_gap(&self) -> (r: u64)
        ensures
            r == interval_ms_of_secs(self.session_gap_secs),
    {
        interval_ms(self.session_gap_secs)
    }

    pub fn tray_update_interval(&self) -> (r: u64)
        ensures
            r == interval_ms_of_secs(self.tray_update_interval_secs),
    {
        interval_ms(self.tray_update_interval_secs)
    }
}

fn interval_ms(secs: u64) -> (r: u64)
    ensures
        r == interval_ms_of_secs(secs),
{
    let floored: u64 = if secs < 1 {
        1
    } else {
        secs
    };
    if floored > u64::MAX / 1000 {
        u64::MAX
    } else {
        floored * 1000
    }
}

/// Tokens trimmed, lowercased, emptied entries dropped, sorted, and
/// adjacent duplicates collapsed.
pub open spec fn normalized_id_list(s: Seq<Seq<char>>) -> Seq<Seq<char>> {
    dedup_adj(
        sort_by_stable(
            s.map_values(|t: Seq<char>| norm_token(t)).filter(|t: Seq<char>| t.len() > 0),
            |a: Seq<char>, b: Seq<char>| lex_le(a, b),
        ),
    )
}

/// Normalizes the configured exclusion list: each entry trimmed and
/// lowercased, empty entries dropped, the rest sorted and deduplicated.
/// Every other field is kept.
pub fn normalize_excluded_bundle_ids(config: AppConfig) -> (r: AppConfig)
    ensures
        views_of(r.excluded_bundle_ids@) == normalized_id_list(
            views_of(config.excluded_bundle_ids@),
        ),
        r == (AppConfig { excluded_bundle_ids: r.excluded_bundle_ids, ..config }),
{
    let mut config = config;
    let mut kept: Vec<String> = Vec::new();
    let mut i: usize = 0;
    let ghost orig: Seq<Seq<char>> = views_of(config.excluded_bundle_ids@);
    proof {
        assert(orig.subrange(0, 0) =~= Seq::<Seq<char>>::empty());
        assert(views_of(kept@) =~= Seq::<Seq<char>>::empty());
        assert(orig.subrange(0, 0).map_values(|t: Seq<char>| norm_token(t)).filter(
            |t: Seq<char>| t.len() > 0,
        ) =~= Seq::<Seq<char>>::empty());
    }
    while i < config.excluded_bundle_ids.len()
        invariant
            i <= config.excluded_bundle_ids@.len(),
            orig == views_of(config.excluded_bundle_ids@),
            views_of(kept@) == orig.subrange(0, i as int).map_values(
                |t: Seq<char>| norm_token(t),
            ).filter(|t: Seq<char>| t.len() > 0),
        decreases config.excluded_bundle_ids@.len() - i,
    {
        let token = normalize_token(config.excluded_bundle_ids[i].as_str());
        let ghost pre = orig.subrange(0, i as int).map_values(|t: Seq<char>| norm_token(t));
        let ghost ext = orig.subrange(0, i + 1).map_values(|t: Seq<char>| norm_token(t));
        proof {
            assert(ext.drop_last() =~= pre);
            assert(ext.last() == norm_token(orig[i as int]));
        }
        if token.as_str().unicode_len() > 0 {
            kept.push(token);
            proof {
                reveal(Seq::filter);
                assert(views_of(kept@) =~= ext.filter(|t: Seq<char>| t.len() > 0));
            }
        } else {
            proof {
                reveal(Seq::filter);
                assert(views_of(kept@) =~= ext.filter(|t: Seq<char>| t.len() > 0));
            }
        }
        i = i + 1;
    }
    proof {
        assert(orig.subrange(0, orig.len() as int) =~= orig);
    }
    let sorted = sort_vec(kept);
    proof {
        assert((|a: Seq<char>, b: Seq<char>| <String as crate::sort::SortOrder>::leq(a, b)) =~= (
        |a: Seq<char>, b: Seq<char>| lex_le(a, b)));
    }
    let deduped = dedup_adjacent(sorted);
    config.excluded_bundle_ids = deduped;
    config
}

} // verus!
