//! User settings, kept in the local store.
use vstd::prelude::*;

use crate::codec::{has_prefix, lowercase, same_text, starts_with, to_lowercase};

verus! {

/// Smallest auto-lock timeout, in minutes.
pub const MIN_AUTO_LOCK_MINUTES: i32 = 1;
/// Largest auto-lock timeout, in minutes (one day).
pub const MAX_AUTO_LOCK_MINUTES: i32 = 1440;

/// Colour theme.
#[derive(Debug, Clone, Copy, PartialEq, Eq, Structural)]
pub enum Theme {
    Light,
    Dark,
    Auto,
}

/// Order of the note list.
#[derive(Debug, Clone, Copy, PartialEq, Eq, Structural)]
pub enum SortOrder {
    /// Most recently modified first.
    Recent,
    /// Oldest modified first.
    Oldest,
    /// Alphabetical by content.
    Alpha,
    /// Most recently created first.
    Created,
}

pub open spec fn theme_name(t: Theme) -> Seq<char> {
    match t {
        Theme::Light => "light"@,
        Theme::Dark => "dark"@,
        Theme::Auto => "auto"@,
    }
}

/// The theme a stored name stands for; unknown names mean `Auto`.
pub open spec fn theme_named(name: Seq<char>) -> Theme {
    if name == "light"@ {
        Theme::Light
    } else if name == "dark"@ {
        Theme::Dark
    } else {
        Theme::Auto
    }
}

pub open spec fn sort_order_name(o: SortOrder) -> Seq<char> {
    match o {
        SortOrder::Recent => "recent"@,
        SortOrder::Oldest => "oldest"@,
        SortOrder::Alpha => "alpha"@,
        SortOrder::Created => "created"@,
    }
}

/// The sort order a stored name stands for; unknown names mean `Recent`.
pub open spec fn sort_order_named(name: Seq<char>) -> SortOrder {
    if name == "oldest"@ {
        SortOrder::Oldest
    } else if name == "alpha"@ {
        SortOrder::Alpha
    } else if name == "created"@ {
        SortOrder::Created
    } else {
        SortOrder::Recent
    }
}

/// The theme that follows `t` in the cycle light, dark, auto.
pub open spec fn theme_after(t: Theme) -> Theme {
    match t {
        Theme::Light => Theme::Dark,
        Theme::Dark => Theme::Auto,
        Theme::Auto => Theme::Light,
    }
}

/// The order that follows `o` in the cycle recent, oldest, alpha, created.
pub open spec fn sort_order_after(o: SortOrder) -> SortOrder {
    match o {
        SortOrder::Recent => SortOrder::Oldest,
        SortOrder::Oldest => SortOrder::Alpha,
        SortOrder::Alpha => SortOrder::Created,
        SortOrder::Created => SortOrder::Recent,
    }
}

impl Theme {
    pub fn as_str(&self) -> (r: &'static str)
        ensures
            r@ == theme_name(*self),
    {
        match self {
            Theme::Light => "light",
            Theme::Dark => "dark",
            Theme::Auto => "auto",
        }
    }

    /// The next theme in the cycle light, dark, auto.
    pub fn next(&self) -> (r: Theme)
        ensures
            r == theme_after(*self),
    {
        match self {
            Theme::Light => Theme::Dark,
            Theme::Dark => Theme::Auto,
            Theme::Auto => Theme::Light,
        }
    }
}

impl Default for Theme {
    fn default() -> (r: Self)
        ensures
            r == Theme::Auto,
    {
        Theme::Auto
    }
}

impl SortOrder {
    pub fn as_str(&self) -> (r: &'static str)
        ensures
            r@ == sort_order_name(*self),
    {
        match self {
            SortOrder::Recent => "recent",
            SortOrder::Oldest => "oldest",
            SortOrder::Alpha => "alpha",
            SortOrder::Created => "created",
        }
    }

    /// The next order in the cycle recent, oldest, alpha, created.
    pub fn next(&self) -> (r: SortOrder)
        ensures
            r == sort_order_after(*self),
    {
        match self {
            SortOrder::Recent => SortOrder::Oldest,
            SortOrder::Oldest => SortOrder::Alpha,
            SortOrder::Alpha => SortOrder::Created,
            SortOrder::Created => SortOrder::Recent,
        }
    }
}

impl Default for SortOrder {
    fn default() -> (r: Self)
        ensures
            r == SortOrder::Recent,
    {
        SortOrder::Recent
    }
}

/// Parses a stored theme name, ignoring case.
pub fn parse_theme(s: &str) -> (r: Theme)
    ensures
        r == theme_named(lowercase(s@)),
{
    let lower = to_lowercase(s);
    let l = lower.as_str();
    if same_text(l, "light") {
        Theme::Light
    } else if same_text(l, "dark") {
        Theme::Dark
    } else {
        Theme::Auto
    }
}

/// Parses a stored sort order name, ignoring case.
pub fn parse_sort_order(s: &str) -> (r: SortOrder)
    ensures
        r == sort_order_named(lowercase(s@)),
{
    let lower = to_lowercase(s);
    let l = lower.as_str();
    if same_text(l, "oldest") {
        SortOrder::Oldest
    } else if same_text(l, "alpha") {
        SortOrder::Alpha
    } else if same_text(l, "created") {
        SortOrder::Created
    } else {
        SortOrder::Recent
    }
}

/// Whether an endpoint names an HTTP or HTTPS URL.
pub open spec fn is_http_endpoint(endpoint: Seq<char>) -> bool {
    has_prefix(endpoint, "http://"@) || has_prefix(endpoint, "https://"@)
}

/// Checks that an endpoint starts with `http://` or `https://`.
pub fn check_endpoint(endpoint: &str) -> (r: bool)
    ensures
        r == is_http_endpoint(endpoint@),
{
    starts_with(endpoint, "http://") || starts_with(endpoint, "https://")
}

/// Application settings.
#[derive(Debug, Clone)]
pub struct UserSettings {
    pub language: String,
    pub theme: Theme,
    pub sort_order: SortOrder,
    /// Minutes of inactivity before the store locks.
    pub auto_lock_timeout: i32,
    pub sync_enabled: bool,
    pub sync_endpoint: Option<String>,
}

/// Whether settings are valid: a timeout of 1 to 1440 minutes, an endpoint
/// when sync is enabled, and any endpoint an HTTP(S) URL.
pub open spec fn settings_valid(s: UserSettings) -> bool {
    &&& MIN_AUTO_LOCK_MINUTES <= s.auto_lock_timeout <= MAX_AUTO_LOCK_MINUTES
    &&& (s.sync_enabled ==> s.sync_endpoint is Some)
    &&& match s.sync_endpoint {
        Some(e) => is_http_endpoint(e@),
        None => true,
    }
}

impl UserSettings {
    /// The defaults: British English, automatic theme, most recent first,
    /// a 15-minute auto-lock and sync off.
    pub fn default() -> (r: UserSettings)
        ensures
            r.language@ == "en-GB"@,
            r.theme == Theme::Auto,
            r.sort_order == SortOrder::Recent,
            r.auto_lock_timeout == 15,
            !r.sync_enabled,
            r.sync_endpoint is None,
            settings_valid(r),
    {
        UserSettings {
            language: "en-GB".to_string(),
            theme: Theme::Auto,
            sort_order: SortOrder::Recent,
            auto_lock_timeout: 15,
            sync_enabled: false,
            sync_endpoint: None,
        }
    }

    /// Checks the settings; the message names the first fault.
    pub fn validate(&self) -> (r: Result<(), String>)
        ensures
            r is Ok <==> settings_valid(*self),
    {
        if self.auto_lock_timeout < MIN_AUTO_LOCK_MINUTES || self.auto_lock_timeout > MAX_AUTO_LOCK_MINUTES {
            return Err("Auto-lock timeout must be between 1 and 1440 minutes".to_string());
        }
        if self.sync_enabled && self.sync_endpoint.is_none() {
            return Err("Sync endpoint is required when sync is enabled".to_string());
        }
        match &self.sync_endpoint {
            Some(endpoint) => {
                if !check_endpoint(endpoint.as_str()) {
                    return Err("Sync endpoint must start with http:// or https://".to_string());
                }
            },
            None => {},
        }
        Ok(())
    }

    /// A copy of these settings.
    pub fn duplicate(&self) -> (r: UserSettings)
        ensures
            r == *self,
    {
        UserSettings {
            language: self.language.clone(),
            theme: self.theme,
            sort_order: self.sort_order,
            auto_lock_timeout: self.auto_lock_timeout,
            sync_enabled: self.sync_enabled,
            sync_endpoint: crate::protocol::clone_opt_str(&self.sync_endpoint),
        }
    }

    /// Moves to the next theme.
    pub fn cycle_theme(&mut self)
        ensures
            *final(self) == (UserSettings { theme: theme_after(old(self).theme), ..*old(self) }),
    {
        self.theme = self.theme.next();
    }

    /// Moves to the next sort order.
    pub fn cycle_sort_order(&mut self)
        ensures
            *final(self) == (UserSettings { sort_order: sort_order_after(old(self).sort_order), ..*old(self) }),
    {
        self.sort_order = self.sort_order.next();
    }
}

} // verus!
