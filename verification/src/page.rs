//! What the pages show: the parts of a page that follow from the data.

use vstd::prelude::*;
use vstd::string::*;
use crate::text;

verus! {

/// A status badge.
pub struct Badge {
    /// The style of the badge.
    pub class: String,
    pub label: String,
    /// What hovering over the badge shows.
    pub title: Option<String>,
}

#[verifier::ext_equal]
pub struct BadgeView {
    pub class: Seq<char>,
    pub label: Seq<char>,
    pub title: Option<Seq<char>>,
}

impl DeepView for Badge {
    type V = BadgeView;

    open spec fn deep_view(&self) -> BadgeView {
        BadgeView { class: self.class@, label: self.label@, title: self.title.deep_view() }
    }
}

/// How the last connection test of an indexer or a download client went.
pub open spec fn tested(ok: Option<i64>, error: Option<Seq<char>>) -> BadgeView {
    match ok {
        Some(n) => if n == 1 {
            BadgeView { class: "completed"@, label: "OK"@, title: None }
        } else {
            BadgeView { class: "failed"@, label: "Failed"@, title: error }
        },
        None => BadgeView { class: "queued"@, label: "Untested"@, title: None },
    }
}

/// The badge for the last connection test.
pub fn test_badge(ok: Option<i64>, error: &Option<String>) -> (r: Badge)
    ensures
        r.deep_view() == tested(ok, error.deep_view()),
{
    match ok {
        Some(n) => if n == 1 {
            Badge { class: "completed".to_string(), label: "OK".to_string(), title: None }
        } else {
            Badge {
                class: "failed".to_string(),
                label: "Failed".to_string(),
                title: error.clone(),
            }
        },
        None => Badge {
            class: "queued".to_string(),
            label: "Untested".to_string(),
            title: None,
        },
    }
}

// ---- navigation ----

/// An item of the navigation.
pub struct NavItem {
    pub href: &'static str,
    pub label: &'static str,
    /// The name of the icon; items of a submenu have none.
    pub icon: Option<&'static str>,
    pub active: bool,
    /// Where the count that the item shows comes from.
    pub badge: Option<&'static str>,
    /// Does a new section begin here?
    pub section: bool,
}

#[verifier::ext_equal]
pub struct NavItemView {
    pub href: Seq<char>,
    pub label: Seq<char>,
    pub icon: Option<Seq<char>>,
    pub active: bool,
    pub badge: Option<Seq<char>>,
    pub section: bool,
}

pub open spec fn static_view(o: Option<&'static str>) -> Option<Seq<char>> {
    match o {
        Some(s) => Some(s@),
        None => None,
    }
}

impl DeepView for NavItem {
    type V = NavItemView;

    open spec fn deep_view(&self) -> NavItemView {
        NavItemView {
            href: self.href@,
            label: self.label@,
            icon: static_view(self.icon),
            active: self.active,
            badge: static_view(self.badge),
            section: self.section,
        }
    }
}

/// The pages of the library.
pub open spec fn in_library(title: Seq<char>) -> bool {
    title == "Library"@ || title == "Authors"@ || title == "Series"@ || title == "Collection"@
}

/// The pages of the settings.
pub open spec fn in_settings(title: Seq<char>) -> bool {
    title == "Settings"@ || title == "Plugins"@ || title == "Indexers"@ || title
        == "Download Clients"@ || title == "Quality Profiles"@ || title == "Users"@ || title
        == "Account"@ || title == "General"@
}

pub open spec fn nav_item(
    href: Seq<char>,
    label: Seq<char>,
    icon: Seq<char>,
    active: bool,
    badge: Option<Seq<char>>,
    section: bool,
) -> NavItemView {
    NavItemView { href, label, icon: Some(icon), active, badge, section }
}

pub open spec fn sub_item(href: Seq<char>, label: Seq<char>, active: bool) -> NavItemView {
    NavItemView { href, label, icon: None, active, badge: None, section: false }
}

/// The submenu of the library, which is open on its pages.
pub open spec fn library_menu(title: Seq<char>) -> Seq<NavItemView> {
    if in_library(title) {
        seq![
            sub_item("/?group=books"@, "Books"@, title == "Library"@),
            sub_item("/?group=authors"@, "Authors"@, title == "Authors"@),
            sub_item("/?group=series"@, "Series"@, title == "Series"@),
        ]
    } else {
        seq![]
    }
}

/// The submenu of the settings, which is open on their pages.
pub open spec fn settings_menu(title: Seq<char>) -> Seq<NavItemView> {
    if in_settings(title) {
        seq![
            sub_item(
                "/settings?tab=plugins"@,
                "Plugins"@,
                title == "Plugins"@ || title == "Settings"@,
            ),
            sub_item("/settings?tab=indexers"@, "Indexers"@, title == "Indexers"@),
            sub_item("/settings?tab=clients"@, "Download Clients"@, title == "Download Clients"@),
            sub_item("/settings?tab=profiles"@, "Quality Profiles"@, title == "Quality Profiles"@),
            sub_item("/settings?tab=users"@, "Users"@, title == "Users"@ || title == "Account"@),
            sub_item("/settings?tab=general"@, "General"@, title == "General"@),
        ]
    } else {
        seq![]
    }
}

/// The items between the library and the submenu of the settings.
pub open spec fn middle_items(title: Seq<char>) -> Seq<NavItemView> {
    seq![
        nav_item("/add-new"@, "Add New"@, "plus"@, title == "Add New"@, None, false),
        nav_item("/calendar"@, "Calendar"@, "calendar"@, title == "Calendar"@, None, false),
        nav_item(
            "/library-import"@,
            "Library Import"@,
            "folder"@,
            title == "Library Import"@,
            None,
            false,
        ),
        nav_item(
            "/activity"@,
            "Activity"@,
            "activity"@,
            title == "Activity"@,
            Some("activity"@),
            true,
        ),
        nav_item("/wanted"@, "Wanted"@, "heart"@, title == "Wanted"@, Some("wanted"@), false),
        nav_item("/settings"@, "Settings"@, "gear"@, in_settings(title), None, true),
    ]
}

/// The navigation on the page with the given title: the item of the page is
/// active, and its submenu is open.
pub open spec fn navigation(title: Seq<char>) -> Seq<NavItemView> {
    seq![nav_item("/?group=books"@, "Books"@, "books"@, in_library(title), None, true)]
        + library_menu(title) + middle_items(title) + settings_menu(title) + seq![
        nav_item("/system"@, "System"@, "monitor"@, title == "System"@, None, false),
    ]
}

fn item(
    href: &'static str,
    label: &'static str,
    icon: &'static str,
    active: bool,
    badge: Option<&'static str>,
    section: bool,
) -> (r: NavItem)
    ensures
        r.deep_view() == nav_item(href@, label@, icon@, active, static_view(badge), section),
{
    NavItem { href, label, icon: Some(icon), active, badge, section }
}

fn under(href: &'static str, label: &'static str, active: bool) -> (r: NavItem)
    ensures
        r.deep_view() == sub_item(href@, label@, active),
{
    NavItem { href, label, icon: None, active, badge: None, section: false }
}

fn append_item(items: &mut Vec<NavItem>, i: NavItem)
    ensures
        final(items).deep_view() == old(items).deep_view().push(i.deep_view()),
{
    let ghost before = items.deep_view();
    items.push(i);
    assert(items.deep_view() =~= before.push(i.deep_view()));
}

fn is_library(title: &str) -> (r: bool)
    ensures
        r == in_library(title@),
{
    text::same(title, "Library") || text::same(title, "Authors") || text::same(title, "Series")
        || text::same(title, "Collection")
}

fn is_settings(title: &str) -> (r: bool)
    ensures
        r == in_settings(title@),
{
    text::same(title, "Settings") || text::same(title, "Plugins") || text::same(title, "Indexers")
        || text::same(title, "Download Clients") || text::same(title, "Quality Profiles")
        || text::same(title, "Users") || text::same(title, "Account") || text::same(
        title,
        "General",
    )
}

fn append_library(items: &mut Vec<NavItem>, title: &str)
    ensures
        final(items).deep_view() == old(items).deep_view() + library_menu(title@),
{
    let ghost before = items.deep_view();
    if is_library(title) {
        append_item(items, under("/?group=books", "Books", text::same(title, "Library")));
        append_item(items, under("/?group=authors", "Authors", text::same(title, "Authors")));
        append_item(items, under("/?group=series", "Series", text::same(title, "Series")));
    }
    assert(items.deep_view() =~= before + library_menu(title@));
}

fn append_middle(items: &mut Vec<NavItem>, title: &str)
    ensures
        final(items).deep_view() == old(items).deep_view() + middle_items(title@),
{
    let ghost before = items.deep_view();
    append_item(
        items,
        item("/add-new", "Add New", "plus", text::same(title, "Add New"), None, false),
    );
    append_item(
        items,
        item("/calendar", "Calendar", "calendar", text::same(title, "Calendar"), None, false),
    );
    append_item(
        items,
        item(
            "/library-import",
            "Library Import",
            "folder",
            text::same(title, "Library Import"),
            None,
            false,
        ),
    );
    append_item(
        items,
        item(
            "/activity",
            "Activity",
            "activity",
            text::same(title, "Activity"),
            Some("activity"),
            true,
        ),
    );
    append_item(
        items,
        item("/wanted", "Wanted", "heart", text::same(title, "Wanted"), Some("wanted"), false),
    );
    append_item(items, item("/settings", "Settings", "gear", is_settings(title), None, true));
    assert(items.deep_view() =~= before + middle_items(title@));
}

fn append_settings(items: &mut Vec<NavItem>, title: &str)
    ensures
        final(items).deep_view() == old(items).deep_view() + settings_menu(title@),
{
    let ghost before = items.deep_view();
    if is_settings(title) {
        let plugins = text::same(title, "Plugins") || text::same(title, "Settings");
        let users = text::same(title, "Users") || text::same(title, "Account");
        append_item(items, under("/settings?tab=plugins", "Plugins", plugins));
        append_item(
            items,
            under("/settings?tab=indexers", "Indexers", text::same(title, "Indexers")),
        );
        append_item(
            items,
            under(
                "/settings?tab=clients",
                "Download Clients",
                text::same(title, "Download Clients"),
            ),
        );
        append_item(
            items,
            under(
                "/settings?tab=profiles",
                "Quality Profiles",
                text::same(title, "Quality Profiles"),
            ),
        );
        append_item(items, under("/settings?tab=users", "Users", users));
        append_item(
            items,
            under("/settings?tab=general", "General", text::same(title, "General")),
        );
    }
    assert(items.deep_view() =~= before + settings_menu(title@));
}

/// The navigation on the page with the given title.
pub fn page(title: &str) -> (r: Vec<NavItem>)
    ensures
        r.deep_view() == navigation(title@),
{
    let mut items: Vec<NavItem> = Vec::new();
    append_item(&mut items, item("/?group=books", "Books", "books", is_library(title), None, true));
    append_library(&mut items, title);
    append_middle(&mut items, title);
    append_settings(&mut items, title);
    append_item(
        &mut items,
        item("/system", "System", "monitor", text::same(title, "System"), None, false),
    );
    assert(items.deep_view() =~= navigation(title@));
    items
}

/// The title of the window.
pub fn window_title(title: &str) -> (r: String)
    ensures
        r@ == title@ + " · Shelfarrs"@,
{
    let mut s = title.to_string();
    s.append(" · Shelfarrs");
    s
}

// ---- settings ----

/// The query of the settings page.
pub struct TabQ {
    pub tab: Option<String>,
    pub preset: Option<String>,
}

/// A tab of the settings.
#[derive(Clone, Copy, Debug, PartialEq, Eq, Structural)]
pub enum Tab {
    Plugins,
    Indexers,
    Clients,
    Profiles,
    Users,
    General,
}

/// The name of a tab in addresses.
pub open spec fn tab_key(t: Tab) -> Seq<char> {
    match t {
        Tab::Plugins => "plugins"@,
        Tab::Indexers => "indexers"@,
        Tab::Clients => "clients"@,
        Tab::Profiles => "profiles"@,
        Tab::Users => "users"@,
        Tab::General => "general"@,
    }
}

/// The title of the page that shows a tab.
pub open spec fn tab_title(t: Tab) -> Seq<char> {
    match t {
        Tab::Plugins => "Plugins"@,
        Tab::Indexers => "Indexers"@,
        Tab::Clients => "Download Clients"@,
        Tab::Profiles => "Quality Profiles"@,
        Tab::Users => "Users"@,
        Tab::General => "General"@,
    }
}

/// The tab that a query asks for: the plugins where it asks for none, or for
/// one that there is not.
pub open spec fn tab_of(tab: Option<Seq<char>>) -> Tab {
    if tab == Some("indexers"@) {
        Tab::Indexers
    } else if tab == Some("clients"@) {
        Tab::Clients
    } else if tab == Some("profiles"@) {
        Tab::Profiles
    } else if tab == Some("users"@) {
        Tab::Users
    } else if tab == Some("general"@) {
        Tab::General
    } else {
        Tab::Plugins
    }
}

/// The tab that a query asks for.
pub fn settings_page(q: &TabQ) -> (r: Tab)
    ensures
        r == tab_of(q.tab.deep_view()),
{
    if text::is_text(&q.tab, "indexers") {
        Tab::Indexers
    } else if text::is_text(&q.tab, "clients") {
        Tab::Clients
    } else if text::is_text(&q.tab, "profiles") {
        Tab::Profiles
    } else if text::is_text(&q.tab, "users") {
        Tab::Users
    } else if text::is_text(&q.tab, "general") {
        Tab::General
    } else {
        Tab::Plugins
    }
}

impl Tab {
    /// The name of the tab in addresses.
    pub fn key(self) -> (r: &'static str)
        ensures
            r@ == tab_key(self),
    {
        match self {
            Tab::Plugins => "plugins",
            Tab::Indexers => "indexers",
            Tab::Clients => "clients",
            Tab::Profiles => "profiles",
            Tab::Users => "users",
            Tab::General => "general",
        }
    }

    /// The title of the page that shows the tab.
    pub fn title(self) -> (r: &'static str)
        ensures
            r@ == tab_title(self),
    {
        match self {
            Tab::Plugins => "Plugins",
            Tab::Indexers => "Indexers",
            Tab::Clients => "Download Clients",
            Tab::Profiles => "Quality Profiles",
            Tab::Users => "Users",
            Tab::General => "General",
        }
    }
}

/// Asking for a tab by its name gives that tab, and on its page the submenu of
/// the settings is open.
pub proof fn law_tab(t: Tab)
    ensures
        tab_of(Some(tab_key(t))) == t,
        in_settings(tab_title(t)),
{
    reveal_strlit("plugins");
    reveal_strlit("indexers");
    reveal_strlit("clients");
    reveal_strlit("profiles");
    reveal_strlit("users");
    reveal_strlit("general");
    assert("plugins"@[1] == 'l' && "profiles"@[1] == 'r' && "indexers"@[0] == 'i' && "clients"@[0]
        == 'c' && "users"@[0] == 'u' && "general"@[0] == 'g' && "plugins"@[0] == 'p'
        && "profiles"@[0] == 'p');
}

// ---- system ----

/// The line that sums up the finished jobs.
pub fn jobs_line(done: i64, failed: i64) -> (r: String)
    ensures
        r@ == text::decimal_of(done as int) + " done · "@ + text::decimal_of(failed as int) + " failed"@,
{
    let mut s = text::decimal(done);
    s.append(" done · ");
    s.append(text::decimal(failed).as_str());
    s.append(" failed");
    s
}

/// The size of the database in kibibytes, in words.
pub fn database_line(bytes: u64) -> (r: String)
    ensures
        r@ == text::decimal_nat((bytes / 1024) as nat) + " KB"@,
{
    let mut s: String = String::new();
    text::push_decimal(&mut s, bytes / 1024);
    s.append(" KB");
    assert(s@ =~= text::decimal_nat((bytes / 1024) as nat) + " KB"@);
    s
}

// ---- what the pages show ----

/// A test that went well is marked as such, one that failed with its error, and
/// one that was never made as untested.
pub proof fn law_tested(n: i64, error: Option<Seq<char>>)
    ensures
        tested(None, error).label == "Untested"@ && tested(None, error).class == "queued"@,
        n == 1 ==> tested(Some(n), error).label == "OK"@ && tested(Some(n), error).class
            == "completed"@ && tested(Some(n), error).title is None,
        n != 1 ==> tested(Some(n), error).label == "Failed"@ && tested(Some(n), error).class
            == "failed"@ && tested(Some(n), error).title == error,
{
}

/// Of the items outside the submenus, those of the library and of the settings
/// are active on all their pages, and every other one exactly on the page that
/// has its name.
pub proof fn law_active(title: Seq<char>, i: int)
    requires
        0 <= i < navigation(title).len(),
        navigation(title)[i].icon is Some,
    ensures
        ({
            let item = navigation(title)[i];
            &&& item.label == "Books"@ ==> item.active == in_library(title)
            &&& item.label == "Settings"@ ==> item.active == in_settings(title)
            &&& item.label != "Books"@ && item.label != "Settings"@ ==> (item.active <==> title
                == item.label)
            &&& item.badge is Some <==> item.label == "Activity"@ || item.label == "Wanted"@
        }),
{
    reveal_strlit("Books");
    reveal_strlit("Settings");
    reveal_strlit("Add New");
    reveal_strlit("Calendar");
    reveal_strlit("Library Import");
    reveal_strlit("Activity");
    reveal_strlit("Wanted");
    reveal_strlit("System");
    assert("Books"@[0] == 'B' && "Settings"@[1] == 'e' && "Add New"@[1] == 'd');
    assert("Calendar"@[0] == 'C' && "Library Import"@[0] == 'L' && "Activity"@[1] == 'c');
    assert("Wanted"@[0] == 'W' && "System"@[1] == 'y' && "Settings"@[0] == 'S');
    assert("System"@[0] == 'S' && "Add New"@[0] == 'A' && "Activity"@[0] == 'A');
    let a = library_menu(title).len() as int;
    let b = settings_menu(title).len() as int;
    let all = navigation(title);
    if i == 0 {
    } else if i < 1 + a {
        assert(all[i] == library_menu(title)[i - 1]);
    } else if i < 7 + a {
        assert(all[i] == middle_items(title)[i - 1 - a]);
    } else if i < 7 + a + b {
        assert(all[i] == settings_menu(title)[i - 7 - a]);
    } else {
        assert(i == 7 + a + b);
    }
}

/// An item of a submenu is active only on its own page; the submenus are open
/// exactly on the pages of the library and of the settings.
pub proof fn law_menus(title: Seq<char>)
    ensures
        library_menu(title).len() > 0 <==> in_library(title),
        settings_menu(title).len() > 0 <==> in_settings(title),
        in_library("Library"@) && in_library("Authors"@) && in_library("Series"@),
        forall|t: Tab| in_settings(#[trigger] tab_title(t)),
        in_settings(title) ==> !in_library(title),
        in_library("Authors"@) && library_menu("Authors"@)[1].active && !library_menu(
            "Authors"@,
        )[0].active && !library_menu("Authors"@)[2].active,
{
    assert forall|t: Tab| in_settings(#[trigger] tab_title(t)) by {
        law_tab(t);
    }
    reveal_strlit("Library");
    reveal_strlit("Authors");
    reveal_strlit("Series");
    reveal_strlit("Collection");
    reveal_strlit("Settings");
    reveal_strlit("Plugins");
    reveal_strlit("Indexers");
    reveal_strlit("Download Clients");
    reveal_strlit("Quality Profiles");
    reveal_strlit("Users");
    reveal_strlit("Account");
    reveal_strlit("General");
    assert("Library"@[0] == 'L' && "Authors"@[1] == 'u' && "Series"@[2] == 'r');
    assert("Collection"@[0] == 'C' && "Settings"@[2] == 't' && "Plugins"@[0] == 'P');
    assert("Indexers"@[0] == 'I' && "Download Clients"@[0] == 'D' && "Users"@[0] == 'U');
    assert("Quality Profiles"@[0] == 'Q' && "Account"@[1] == 'c' && "General"@[0] == 'G');
    assert("Authors"@[0] == 'A' && "Account"@[0] == 'A' && "Series"@[0] == 'S' && "Settings"@[0]
        == 'S');
}

/// The page of a tab is the one whose entry in the submenu is active.
pub proof fn law_tab_active(t: Tab)
    ensures
        ({
            let menu = settings_menu(tab_title(t));
            let k = match t {
                Tab::Plugins => 0int,
                Tab::Indexers => 1,
                Tab::Clients => 2,
                Tab::Profiles => 3,
                Tab::Users => 4,
                Tab::General => 5,
            };
            &&& menu.len() == 6
            &&& menu[k].active && menu[k].label == tab_title(t)
            &&& text::ends(menu[k].href, "?tab="@ + tab_key(t))
            &&& forall|j: int| 0 <= j < 6 && j != k ==> !(#[trigger] menu[j]).active
        }),
{
    law_tab(t);
    reveal_strlit("Settings");
    reveal_strlit("Plugins");
    reveal_strlit("Indexers");
    reveal_strlit("Download Clients");
    reveal_strlit("Quality Profiles");
    reveal_strlit("Users");
    reveal_strlit("Account");
    reveal_strlit("General");
    reveal_strlit("/settings?tab=plugins");
    reveal_strlit("/settings?tab=indexers");
    reveal_strlit("/settings?tab=clients");
    reveal_strlit("/settings?tab=profiles");
    reveal_strlit("/settings?tab=users");
    reveal_strlit("/settings?tab=general");
    reveal_strlit("?tab=");
    reveal_strlit("plugins");
    reveal_strlit("indexers");
    reveal_strlit("clients");
    reveal_strlit("profiles");
    reveal_strlit("users");
    reveal_strlit("general");
    assert("Settings"@[0] == 'S' && "Plugins"@[0] == 'P' && "Indexers"@[0] == 'I');
    assert("Download Clients"@[0] == 'D' && "Users"@[0] == 'U' && "Quality Profiles"@[0] == 'Q');
    assert("Account"@[0] == 'A' && "General"@[0] == 'G');
    let key = "?tab="@ + tab_key(t);
    let base = "/settings"@;
    reveal_strlit("/settings");
    let menu = settings_menu(tab_title(t));
    match t {
        Tab::Plugins => assert(menu[0].href =~= base + key),
        Tab::Indexers => assert(menu[1].href =~= base + key),
        Tab::Clients => assert(menu[2].href =~= base + key),
        Tab::Profiles => assert(menu[3].href =~= base + key),
        Tab::Users => assert(menu[4].href =~= base + key),
        Tab::General => assert(menu[5].href =~= base + key),
    }
    let href = base + key;
    assert(href.subrange(href.len() - key.len(), href.len() as int) =~= key);
}

/// A query for a tab that there is not shows the plugins, and so does none.
pub proof fn law_other_tab(tab: Seq<char>)
    requires
        forall|t: Tab| tab != #[trigger] tab_key(t),
    ensures
        tab_of(Some(tab)) == Tab::Plugins,
        tab_of(None) == Tab::Plugins,
{
    assert(tab != tab_key(Tab::Indexers) && tab != tab_key(Tab::Clients) && tab != tab_key(
        Tab::Profiles,
    ) && tab != tab_key(Tab::Users) && tab != tab_key(Tab::General));
}

/// Every part of a badge is seen as itself.
pub proof fn law_badge_view(x: Badge)
    ensures
        x.deep_view().class == x.class@,
        x.deep_view().label == x.label@,
        x.deep_view().title == x.title.deep_view(),
{
}

/// Every part of a navigation item is seen as itself.
pub proof fn law_nav_item_view(x: NavItem)
    ensures
        x.deep_view().href == x.href@,
        x.deep_view().label == x.label@,
        x.deep_view().icon == static_view(x.icon),
        x.deep_view().active == x.active,
        x.deep_view().badge == static_view(x.badge),
        x.deep_view().section == x.section,
{
}

/// Every item leads to its own page: the label tells the address.
pub proof fn law_addresses(title: Seq<char>, i: int)
    requires
        0 <= i < navigation(title).len(),
    ensures
        ({
            let item = navigation(title)[i];
            &&& item.icon is Some || in_library(title) || in_settings(title)
            &&& item.label == "Books"@ ==> item.href == "/?group=books"@
            &&& item.label == "Authors"@ ==> item.href == "/?group=authors"@
            &&& item.label == "Series"@ ==> item.href == "/?group=series"@
            &&& item.label == "Add New"@ ==> item.href == "/add-new"@
            &&& item.label == "Calendar"@ ==> item.href == "/calendar"@
            &&& item.label == "Library Import"@ ==> item.href == "/library-import"@
            &&& item.label == "Activity"@ ==> item.href == "/activity"@
            &&& item.label == "Wanted"@ ==> item.href == "/wanted"@
            &&& item.label == "Settings"@ ==> item.href == "/settings"@
            &&& item.label == "System"@ ==> item.href == "/system"@
            &&& [
                "Books"@,
                "Authors"@,
                "Series"@,
                "Add New"@,
                "Calendar"@,
                "Library Import"@,
                "Activity"@,
                "Wanted"@,
                "Settings"@,
                "System"@,
                "Plugins"@,
                "Indexers"@,
                "Download Clients"@,
                "Quality Profiles"@,
                "Users"@,
                "General"@,
            ]@.contains(item.label)
        }),
{
    reveal_strlit("Books");
    reveal_strlit("Authors");
    reveal_strlit("Series");
    reveal_strlit("Add New");
    reveal_strlit("Calendar");
    reveal_strlit("Library Import");
    reveal_strlit("Activity");
    reveal_strlit("Wanted");
    reveal_strlit("Settings");
    reveal_strlit("System");
    reveal_strlit("Plugins");
    reveal_strlit("Indexers");
    reveal_strlit("Download Clients");
    reveal_strlit("Quality Profiles");
    reveal_strlit("Users");
    reveal_strlit("General");
    assert("Books"@[0] == 'B' && "Authors"@[1] == 'u' && "Series"@[2] == 'r' && "Add New"@[1]
        == 'd');
    assert("Calendar"@[0] == 'C' && "Library Import"@[0] == 'L' && "Activity"@[1] == 'c');
    assert("Wanted"@[0] == 'W' && "Settings"@[2] == 't' && "System"@[1] == 'y');
    assert("Authors"@[0] == 'A' && "Add New"@[0] == 'A' && "Activity"@[0] == 'A');
    assert("Series"@[0] == 'S' && "Settings"@[0] == 'S' && "System"@[0] == 'S');
    assert("Series"@[1] == 'e' && "Settings"@[1] == 'e');
    assert("Plugins"@[0] == 'P' && "Indexers"@[0] == 'I' && "Download Clients"@[0] == 'D');
    assert("Quality Profiles"@[0] == 'Q' && "Users"@[0] == 'U' && "General"@[0] == 'G');
    let known = [
        "Books"@,
        "Authors"@,
        "Series"@,
        "Add New"@,
        "Calendar"@,
        "Library Import"@,
        "Activity"@,
        "Wanted"@,
        "Settings"@,
        "System"@,
        "Plugins"@,
        "Indexers"@,
        "Download Clients"@,
        "Quality Profiles"@,
        "Users"@,
        "General"@,
    ]@;
    assert(known[0] == "Books"@ && known[1] == "Authors"@ && known[2] == "Series"@ && known[3]
        == "Add New"@ && known[4] == "Calendar"@ && known[5] == "Library Import"@);
    assert(known[6] == "Activity"@ && known[7] == "Wanted"@ && known[8] == "Settings"@ && known[9]
        == "System"@ && known[10] == "Plugins"@ && known[11] == "Indexers"@);
    assert(known[12] == "Download Clients"@ && known[13] == "Quality Profiles"@ && known[14]
        == "Users"@ && known[15] == "General"@);
    let a = library_menu(title).len() as int;
    let b = settings_menu(title).len() as int;
    let all = navigation(title);
    if i == 0 {
    } else if i < 1 + a {
        assert(all[i] == library_menu(title)[i - 1]);
    } else if i < 7 + a {
        assert(all[i] == middle_items(title)[i - 1 - a]);
    } else if i < 7 + a + b {
        assert(all[i] == settings_menu(title)[i - 7 - a]);
    } else {
        assert(i == 7 + a + b);
    }
}

} // verus!
