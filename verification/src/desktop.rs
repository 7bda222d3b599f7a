//! The menu of the application.
use vstd::prelude::*;
use vstd::string::*;

use crate::text::{opt_view, same};

verus! {

/// What the user can choose in the menu.
#[derive(Clone, Copy, Debug, PartialEq, Eq, Structural)]
pub enum MenuCommand {
    NewConnection,
    ImportConnections,
    NewSession,
    CloseTab,
    Settings,
    Help,
    ShowTerminal,
    ShowFiles,
    ToggleSidebar,
}

/// The id of a command in the menu.
pub open spec fn menu_id(command: MenuCommand) -> Seq<char> {
    match command {
        MenuCommand::NewConnection => "new-connection"@,
        MenuCommand::ImportConnections => "import-connections"@,
        MenuCommand::NewSession => "new-session"@,
        MenuCommand::CloseTab => "close-tab"@,
        MenuCommand::Settings => "settings"@,
        MenuCommand::Help => "help"@,
        MenuCommand::ShowTerminal => "show-terminal"@,
        MenuCommand::ShowFiles => "show-files"@,
        MenuCommand::ToggleSidebar => "toggle-sidebar"@,
    }
}

/// The keys that choose a command.
pub open spec fn menu_keys(command: MenuCommand) -> Option<Seq<char>> {
    match command {
        MenuCommand::NewConnection => Some("CmdOrCtrl+N"@),
        MenuCommand::ImportConnections => None,
        MenuCommand::NewSession => Some("CmdOrCtrl+Shift+T"@),
        MenuCommand::CloseTab => Some("CmdOrCtrl+W"@),
        MenuCommand::Settings => Some("CmdOrCtrl+,"@),
        MenuCommand::Help => Some("F1"@),
        MenuCommand::ShowTerminal => Some("CmdOrCtrl+1"@),
        MenuCommand::ShowFiles => Some("CmdOrCtrl+2"@),
        MenuCommand::ToggleSidebar => Some("CmdOrCtrl+B"@),
    }
}

impl MenuCommand {
    /// The id of the command in the menu.
    pub fn id(self) -> (r: &'static str)
        ensures
            r@ == menu_id(self),
    {
        match self {
            MenuCommand::NewConnection => "new-connection",
            MenuCommand::ImportConnections => "import-connections",
            MenuCommand::NewSession => "new-session",
            MenuCommand::CloseTab => "close-tab",
            MenuCommand::Settings => "settings",
            MenuCommand::Help => "help",
            MenuCommand::ShowTerminal => "show-terminal",
            MenuCommand::ShowFiles => "show-files",
            MenuCommand::ToggleSidebar => "toggle-sidebar",
        }
    }

    /// The keys that choose the command.
    pub fn accelerator(self) -> (r: Option<&'static str>)
        ensures
            match menu_keys(self) {
                Some(keys) => r is Some && r->0@ == keys,
                None => r is None,
            },
    {
        match self {
            MenuCommand::NewConnection => Some("CmdOrCtrl+N"),
            MenuCommand::ImportConnections => None,
            MenuCommand::NewSession => Some("CmdOrCtrl+Shift+T"),
            MenuCommand::CloseTab => Some("CmdOrCtrl+W"),
            MenuCommand::Settings => Some("CmdOrCtrl+,"),
            MenuCommand::Help => Some("F1"),
            MenuCommand::ShowTerminal => Some("CmdOrCtrl+1"),
            MenuCommand::ShowFiles => Some("CmdOrCtrl+2"),
            MenuCommand::ToggleSidebar => Some("CmdOrCtrl+B"),
        }
    }
}

/// The command that the user chose in the menu. Other entries of the menu are no commands of the
/// application.
pub fn handle_menu(id: &str) -> (r: Option<MenuCommand>)
    ensures
        match r {
            Some(command) => id@ == menu_id(command),
            None => forall|command: MenuCommand| id@ != #[trigger] menu_id(command),
        },
{
    if same(id, "new-connection") {
        Some(MenuCommand::NewConnection)
    } else if same(id, "import-connections") {
        Some(MenuCommand::ImportConnections)
    } else if same(id, "new-session") {
        Some(MenuCommand::NewSession)
    } else if same(id, "close-tab") {
        Some(MenuCommand::CloseTab)
    } else if same(id, "settings") {
        Some(MenuCommand::Settings)
    } else if same(id, "help") {
        Some(MenuCommand::Help)
    } else if same(id, "show-terminal") {
        Some(MenuCommand::ShowTerminal)
    } else if same(id, "show-files") {
        Some(MenuCommand::ShowFiles)
    } else if same(id, "toggle-sidebar") {
        Some(MenuCommand::ToggleSidebar)
    } else {
        None
    }
}

/// An entry of the menu leads to one command: no two commands share an id.
pub proof fn law_menu_entries_lead_to_one_command(one: MenuCommand, other: MenuCommand)
    ensures
        menu_id(one) == menu_id(other) ==> one == other,
{
    reveal_strlit("new-connection");
    reveal_strlit("import-connections");
    reveal_strlit("new-session");
    reveal_strlit("close-tab");
    reveal_strlit("settings");
    reveal_strlit("help");
    reveal_strlit("show-terminal");
    reveal_strlit("show-files");
    reveal_strlit("toggle-sidebar");
    assert("new-connection"@[0] == 'n');
    assert("toggle-sidebar"@[0] == 't');
    assert("new-connection"@.len() == 14);
    assert("import-connections"@.len() == 18);
    assert("new-session"@.len() == 11);
    assert("close-tab"@.len() == 9);
    assert("settings"@.len() == 8);
    assert("help"@.len() == 4);
    assert("show-terminal"@.len() == 13);
    assert("show-files"@.len() == 10);
    assert("toggle-sidebar"@.len() == 14);
}

/// No two commands are chosen by the same keys.
pub proof fn law_keys_lead_to_one_command(one: MenuCommand, other: MenuCommand)
    ensures
        menu_keys(one) is Some && menu_keys(one) == menu_keys(other) ==> one == other,
{
    reveal_strlit("CmdOrCtrl+N");
    reveal_strlit("CmdOrCtrl+Shift+T");
    reveal_strlit("CmdOrCtrl+W");
    reveal_strlit("CmdOrCtrl+,");
    reveal_strlit("F1");
    reveal_strlit("CmdOrCtrl+1");
    reveal_strlit("CmdOrCtrl+2");
    reveal_strlit("CmdOrCtrl+B");
    assert("CmdOrCtrl+N"@[10] == 'N');
    assert("CmdOrCtrl+W"@[10] == 'W');
    assert("CmdOrCtrl+,"@[10] == ',');
    assert("CmdOrCtrl+1"@[10] == '1');
    assert("CmdOrCtrl+2"@[10] == '2');
    assert("CmdOrCtrl+B"@[10] == 'B');
    assert("CmdOrCtrl+Shift+T"@.len() == 17);
    assert("F1"@.len() == 2);
}

/// What the system offers in a menu by itself.
#[derive(Clone, Copy, Debug, PartialEq, Eq, Structural)]
pub enum SystemEntry {
    About,
    Services,
    Hide,
    HideOthers,
    ShowAll,
    Quit,
    Undo,
    Redo,
    Cut,
    Copy,
    Paste,
    SelectAll,
    Fullscreen,
    Minimize,
    Maximize,
    BringAllToFront,
}

/// An entry of a menu.
#[derive(Clone, Copy, Debug, PartialEq, Eq, Structural)]
pub enum MenuEntry {
    Command(MenuCommand),
    System(SystemEntry),
    Separator,
}

/// The menus, from left to right.
#[derive(Clone, Copy, Debug, PartialEq, Eq, Structural)]
pub enum Submenu {
    Application,
    Connection,
    Edit,
    View,
    Window,
    Help,
}

/// The entries of a menu, from top to bottom.
pub open spec fn menu_entries(submenu: Submenu) -> Seq<MenuEntry> {
    match submenu {
        Submenu::Application => seq![
            MenuEntry::System(SystemEntry::About),
            MenuEntry::Separator,
            MenuEntry::Command(MenuCommand::Settings),
            MenuEntry::Separator,
            MenuEntry::System(SystemEntry::Services),
            MenuEntry::Separator,
            MenuEntry::System(SystemEntry::Hide),
            MenuEntry::System(SystemEntry::HideOthers),
            MenuEntry::System(SystemEntry::ShowAll),
            MenuEntry::Separator,
            MenuEntry::System(SystemEntry::Quit),
        ],
        Submenu::Connection => seq![
            MenuEntry::Command(MenuCommand::NewConnection),
            MenuEntry::Command(MenuCommand::ImportConnections),
            MenuEntry::Separator,
            MenuEntry::Command(MenuCommand::NewSession),
            MenuEntry::Command(MenuCommand::CloseTab),
        ],
        Submenu::Edit => seq![
            MenuEntry::System(SystemEntry::Undo),
            MenuEntry::System(SystemEntry::Redo),
            MenuEntry::Separator,
            MenuEntry::System(SystemEntry::Cut),
            MenuEntry::System(SystemEntry::Copy),
            MenuEntry::System(SystemEntry::Paste),
            MenuEntry::System(SystemEntry::SelectAll),
        ],
        Submenu::View => seq![
            MenuEntry::Command(MenuCommand::ShowTerminal),
            MenuEntry::Command(MenuCommand::ShowFiles),
            MenuEntry::Separator,
            MenuEntry::Command(MenuCommand::ToggleSidebar),
            MenuEntry::Separator,
            MenuEntry::System(SystemEntry::Fullscreen),
        ],
        Submenu::Window => seq![
            MenuEntry::System(SystemEntry::Minimize),
            MenuEntry::System(SystemEntry::Maximize),
            MenuEntry::Separator,
            MenuEntry::System(SystemEntry::BringAllToFront),
        ],
        Submenu::Help => seq![MenuEntry::Command(MenuCommand::Help)],
    }
}

/// The entries of a menu, from top to bottom.
pub fn submenu_entries(submenu: Submenu) -> (r: Vec<MenuEntry>)
    ensures
        r@ == menu_entries(submenu),
{
    match submenu {
        Submenu::Application => vec![
            MenuEntry::System(SystemEntry::About),
            MenuEntry::Separator,
            MenuEntry::Command(MenuCommand::Settings),
            MenuEntry::Separator,
            MenuEntry::System(SystemEntry::Services),
            MenuEntry::Separator,
            MenuEntry::System(SystemEntry::Hide),
            MenuEntry::System(SystemEntry::HideOthers),
            MenuEntry::System(SystemEntry::ShowAll),
            MenuEntry::Separator,
            MenuEntry::System(SystemEntry::Quit),
        ],
        Submenu::Connection => vec![
            MenuEntry::Command(MenuCommand::NewConnection),
            MenuEntry::Command(MenuCommand::ImportConnections),
            MenuEntry::Separator,
            MenuEntry::Command(MenuCommand::NewSession),
            MenuEntry::Command(MenuCommand::CloseTab),
        ],
        Submenu::Edit => vec![
            MenuEntry::System(SystemEntry::Undo),
            MenuEntry::System(SystemEntry::Redo),
            MenuEntry::Separator,
            MenuEntry::System(SystemEntry::Cut),
            MenuEntry::System(SystemEntry::Copy),
            MenuEntry::System(SystemEntry::Paste),
            MenuEntry::System(SystemEntry::SelectAll),
        ],
        Submenu::View => vec![
            MenuEntry::Command(MenuCommand::ShowTerminal),
            MenuEntry::Command(MenuCommand::ShowFiles),
            MenuEntry::Separator,
            MenuEntry::Command(MenuCommand::ToggleSidebar),
            MenuEntry::Separator,
            MenuEntry::System(SystemEntry::Fullscreen),
        ],
        Submenu::Window => vec![
            MenuEntry::System(SystemEntry::Minimize),
            MenuEntry::System(SystemEntry::Maximize),
            MenuEntry::Separator,
            MenuEntry::System(SystemEntry::BringAllToFront),
        ],
        Submenu::Help => vec![MenuEntry::Command(MenuCommand::Help)],
    }
}

/// The texts of the menu in the language of the user.
#[derive(Debug)]
pub struct NativeMenuLabels {
    pub settings: String,
    pub new_connection: String,
    pub import_open_ssh_config: String,
    pub new_session: String,
    pub close_tab: String,
    pub terminal: String,
    pub files: String,
    pub toggle_sidebar: String,
    pub help_item: String,
    pub about: String,
    pub services: String,
    pub hide: String,
    pub hide_others: String,
    pub show_all: String,
    pub quit: String,
    pub connection_menu: String,
    pub edit_menu: String,
    pub undo: String,
    pub redo: String,
    pub cut: String,
    pub copy: String,
    pub paste: String,
    pub select_all: String,
    pub view_menu: String,
    pub fullscreen: String,
    pub window_menu: String,
    pub minimize: String,
    pub zoom: String,
    pub bring_all_to_front: String,
    pub help_menu: String,
}

/// The menus, from left to right.
pub open spec fn menu_order() -> Seq<Submenu> {
    seq![
        Submenu::Application,
        Submenu::Connection,
        Submenu::Edit,
        Submenu::View,
        Submenu::Window,
        Submenu::Help,
    ]
}

/// The menus, from left to right.
pub fn submenus() -> (r: Vec<Submenu>)
    ensures
        r@ == menu_order(),
{
    vec![
        Submenu::Application,
        Submenu::Connection,
        Submenu::Edit,
        Submenu::View,
        Submenu::Window,
        Submenu::Help,
    ]
}

/// The title of a menu; the first has the name of the application.
pub open spec fn title_of(submenu: Submenu, labels: NativeMenuLabels) -> Seq<char> {
    match submenu {
        Submenu::Application => "Luna Mux"@,
        Submenu::Connection => labels.connection_menu@,
        Submenu::Edit => labels.edit_menu@,
        Submenu::View => labels.view_menu@,
        Submenu::Window => labels.window_menu@,
        Submenu::Help => labels.help_menu@,
    }
}

/// The title of a menu.
pub fn submenu_title(submenu: Submenu, labels: &NativeMenuLabels) -> (r: String)
    ensures
        r@ == title_of(submenu, *labels),
{
    match submenu {
        Submenu::Application => "Luna Mux".to_owned(),
        Submenu::Connection => labels.connection_menu.clone(),
        Submenu::Edit => labels.edit_menu.clone(),
        Submenu::View => labels.view_menu.clone(),
        Submenu::Window => labels.window_menu.clone(),
        Submenu::Help => labels.help_menu.clone(),
    }
}

/// The label of an entry; a separator has none.
pub open spec fn label_of(entry: MenuEntry, labels: NativeMenuLabels) -> Option<Seq<char>> {
    match entry {
        MenuEntry::Command(command) => Some(
            match command {
                MenuCommand::NewConnection => labels.new_connection@,
                MenuCommand::ImportConnections => labels.import_open_ssh_config@,
                MenuCommand::NewSession => labels.new_session@,
                MenuCommand::CloseTab => labels.close_tab@,
                MenuCommand::Settings => labels.settings@,
                MenuCommand::Help => labels.help_item@,
                MenuCommand::ShowTerminal => labels.terminal@,
                MenuCommand::ShowFiles => labels.files@,
                MenuCommand::ToggleSidebar => labels.toggle_sidebar@,
            },
        ),
        MenuEntry::System(system) => Some(
            match system {
                SystemEntry::About => labels.about@,
                SystemEntry::Services => labels.services@,
                SystemEntry::Hide => labels.hide@,
                SystemEntry::HideOthers => labels.hide_others@,
                SystemEntry::ShowAll => labels.show_all@,
                SystemEntry::Quit => labels.quit@,
                SystemEntry::Undo => labels.undo@,
                SystemEntry::Redo => labels.redo@,
                SystemEntry::Cut => labels.cut@,
                SystemEntry::Copy => labels.copy@,
                SystemEntry::Paste => labels.paste@,
                SystemEntry::SelectAll => labels.select_all@,
                SystemEntry::Fullscreen => labels.fullscreen@,
                SystemEntry::Minimize => labels.minimize@,
                SystemEntry::Maximize => labels.zoom@,
                SystemEntry::BringAllToFront => labels.bring_all_to_front@,
            },
        ),
        MenuEntry::Separator => None,
    }
}

/// The label of an entry; a separator has none.
pub fn entry_label(entry: MenuEntry, labels: &NativeMenuLabels) -> (r: Option<String>)
    ensures
        opt_view(r) == label_of(entry, *labels),
{
    match entry {
        MenuEntry::Command(command) => Some(
            match command {
                MenuCommand::NewConnection => labels.new_connection.clone(),
                MenuCommand::ImportConnections => labels.import_open_ssh_config.clone(),
                MenuCommand::NewSession => labels.new_session.clone(),
                MenuCommand::CloseTab => labels.close_tab.clone(),
                MenuCommand::Settings => labels.settings.clone(),
                MenuCommand::Help => labels.help_item.clone(),
                MenuCommand::ShowTerminal => labels.terminal.clone(),
                MenuCommand::ShowFiles => labels.files.clone(),
                MenuCommand::ToggleSidebar => labels.toggle_sidebar.clone(),
            },
        ),
        MenuEntry::System(system) => Some(
            match system {
                SystemEntry::About => labels.about.clone(),
                SystemEntry::Services => labels.services.clone(),
                SystemEntry::Hide => labels.hide.clone(),
                SystemEntry::HideOthers => labels.hide_others.clone(),
                SystemEntry::ShowAll => labels.show_all.clone(),
                SystemEntry::Quit => labels.quit.clone(),
                SystemEntry::Undo => labels.undo.clone(),
                SystemEntry::Redo => labels.redo.clone(),
                SystemEntry::Cut => labels.cut.clone(),
                SystemEntry::Copy => labels.copy.clone(),
                SystemEntry::Paste => labels.paste.clone(),
                SystemEntry::SelectAll => labels.select_all.clone(),
                SystemEntry::Fullscreen => labels.fullscreen.clone(),
                SystemEntry::Minimize => labels.minimize.clone(),
                SystemEntry::Maximize => labels.zoom.clone(),
                SystemEntry::BringAllToFront => labels.bring_all_to_front.clone(),
            },
        ),
        MenuEntry::Separator => None,
    }
}

/// An entry with its label.
#[derive(Debug)]
pub struct MenuItem {
    pub entry: MenuEntry,
    pub label: Option<String>,
}

/// A menu with its title and its entries.
#[derive(Debug)]
pub struct MenuPart {
    pub title: String,
    pub items: Vec<MenuItem>,
}

/// What a menu shows: its title, and each entry with its label.
pub ghost struct MenuPartView {
    pub title: Seq<char>,
    pub items: Seq<(MenuEntry, Option<Seq<char>>)>,
}

impl View for MenuPart {
    type V = MenuPartView;

    open spec fn view(&self) -> MenuPartView {
        MenuPartView {
            title: self.title@,
            items: self.items@.map_values(|item: MenuItem| (item.entry, opt_view(item.label))),
        }
    }
}

/// What a menu shows with the given texts.
pub open spec fn part_of(submenu: Submenu, labels: NativeMenuLabels) -> MenuPartView {
    MenuPartView {
        title: title_of(submenu, labels),
        items: menu_entries(submenu).map_values(
            |entry: MenuEntry| (entry, label_of(entry, labels)),
        ),
    }
}

fn menu_part(submenu: Submenu, labels: &NativeMenuLabels) -> (r: MenuPart)
    ensures
        r@ == part_of(submenu, *labels),
{
    let entries = submenu_entries(submenu);
    let mut items: Vec<MenuItem> = Vec::new();
    let mut i: usize = 0;
    while i < entries.len()
        invariant
            entries@ == menu_entries(submenu),
            i <= entries@.len(),
            items@.len() == i,
            forall|k: int|
                0 <= k < i ==> (#[trigger] items@[k]).entry == entries@[k] && opt_view(
                    items@[k].label,
                ) == label_of(entries@[k], *labels),
        decreases entries@.len() - i,
    {
        let entry = entries[i];
        items.push(MenuItem { entry, label: entry_label(entry, labels) });
        i = i + 1;
    }
    let r = MenuPart { title: submenu_title(submenu, labels), items };
    assert(r@.items =~= part_of(submenu, *labels).items);
    r
}

/// The menu bar of the application with the given texts: the menus from left to right, each with
/// its title and its entries from top to bottom.
pub fn menu(labels: &NativeMenuLabels) -> (r: Vec<MenuPart>)
    ensures
        r@.map_values(|part: MenuPart| part@) == menu_order().map_values(
            |submenu: Submenu| part_of(submenu, *labels),
        ),
{
    let order = submenus();
    let mut r: Vec<MenuPart> = Vec::new();
    let mut i: usize = 0;
    while i < order.len()
        invariant
            order@ == menu_order(),
            i <= order@.len(),
            r@.len() == i,
            forall|k: int| 0 <= k < i ==> (#[trigger] r@[k])@ == part_of(order@[k], *labels),
        decreases order@.len() - i,
    {
        r.push(menu_part(order[i], labels));
        i = i + 1;
    }
    assert(r@.map_values(|part: MenuPart| part@) =~= menu_order().map_values(
        |submenu: Submenu| part_of(submenu, *labels),
    ));
    r
}

/// Every command of the application stands in the menu bar, in one menu.
pub proof fn law_every_command_stands_in_one_menu(command: MenuCommand)
    ensures
        exists|i: int|
            0 <= i < menu_order().len() && menu_entries(#[trigger] menu_order()[i]).contains(
                MenuEntry::Command(command),
            ),
        forall|i: int, j: int|
            0 <= i < menu_order().len() && 0 <= j < menu_order().len() && menu_entries(
                #[trigger] menu_order()[i],
            ).contains(MenuEntry::Command(command)) && menu_entries(
                #[trigger] menu_order()[j],
            ).contains(MenuEntry::Command(command)) ==> i == j,
{
    let (place, at): (int, int) = match command {
        MenuCommand::Settings => (0, 2),
        MenuCommand::NewConnection => (1, 0),
        MenuCommand::ImportConnections => (1, 1),
        MenuCommand::NewSession => (1, 3),
        MenuCommand::CloseTab => (1, 4),
        MenuCommand::ShowTerminal => (3, 0),
        MenuCommand::ShowFiles => (3, 1),
        MenuCommand::ToggleSidebar => (3, 3),
        MenuCommand::Help => (5, 0),
    };
    let order = menu_order();
    assert(menu_entries(order[place])[at] == MenuEntry::Command(command));
    assert forall|i: int|
        0 <= i < order.len() && menu_entries(#[trigger] order[i]).contains(
            MenuEntry::Command(command),
        ) implies i == place by {
        let entries = menu_entries(order[i]);
        let k = choose|k: int|
            0 <= k < entries.len() && entries[k] == MenuEntry::Command(command);
        assert(0 <= k < 11);
        assert(i == 0 || i == 1 || i == 2 || i == 3 || i == 4 || i == 5);
        assert(k == 0 || k == 1 || k == 2 || k == 3 || k == 4 || k == 5 || k == 6 || k == 7 || k
            == 8 || k == 9 || k == 10);
    }
}

/// Every entry of the menu is shown under its own label; a separator has none.
pub proof fn law_entries_have_their_label(labels: NativeMenuLabels)
    ensures
        label_of(MenuEntry::Separator, labels) is None,
        label_of(MenuEntry::Command(MenuCommand::NewConnection), labels) == Some(
            labels.new_connection@,
        ),
        label_of(MenuEntry::Command(MenuCommand::ImportConnections), labels) == Some(
            labels.import_open_ssh_config@,
        ),
        label_of(MenuEntry::Command(MenuCommand::NewSession), labels) == Some(labels.new_session@),
        label_of(MenuEntry::Command(MenuCommand::CloseTab), labels) == Some(labels.close_tab@),
        label_of(MenuEntry::Command(MenuCommand::Settings), labels) == Some(labels.settings@),
        label_of(MenuEntry::Command(MenuCommand::Help), labels) == Some(labels.help_item@),
        label_of(MenuEntry::Command(MenuCommand::ShowTerminal), labels) == Some(labels.terminal@),
        label_of(MenuEntry::Command(MenuCommand::ShowFiles), labels) == Some(labels.files@),
        label_of(MenuEntry::Command(MenuCommand::ToggleSidebar), labels) == Some(
            labels.toggle_sidebar@,
        ),
        label_of(MenuEntry::System(SystemEntry::About), labels) == Some(labels.about@),
        label_of(MenuEntry::System(SystemEntry::Services), labels) == Some(labels.services@),
        label_of(MenuEntry::System(SystemEntry::Hide), labels) == Some(labels.hide@),
        label_of(MenuEntry::System(SystemEntry::HideOthers), labels) == Some(labels.hide_others@),
        label_of(MenuEntry::System(SystemEntry::ShowAll), labels) == Some(labels.show_all@),
        label_of(MenuEntry::System(SystemEntry::Quit), labels) == Some(labels.quit@),
        label_of(MenuEntry::System(SystemEntry::Undo), labels) == Some(labels.undo@),
        label_of(MenuEntry::System(SystemEntry::Redo), labels) == Some(labels.redo@),
        label_of(MenuEntry::System(SystemEntry::Cut), labels) == Some(labels.cut@),
        label_of(MenuEntry::System(SystemEntry::Copy), labels) == Some(labels.copy@),
        label_of(MenuEntry::System(SystemEntry::Paste), labels) == Some(labels.paste@),
        label_of(MenuEntry::System(SystemEntry::SelectAll), labels) == Some(labels.select_all@),
        label_of(MenuEntry::System(SystemEntry::Fullscreen), labels) == Some(labels.fullscreen@),
        label_of(MenuEntry::System(SystemEntry::Minimize), labels) == Some(labels.minimize@),
        label_of(MenuEntry::System(SystemEntry::Maximize), labels) == Some(labels.zoom@),
        label_of(MenuEntry::System(SystemEntry::BringAllToFront), labels) == Some(
            labels.bring_all_to_front@,
        ),
{
}

/// The menu has each of its parts once, that of the application first and that of help last, and no
/// part begins or ends with a separator.
pub proof fn law_the_menu_has_each_part_once(submenu: Submenu)
    ensures
        menu_order().contains(submenu),
        menu_order().no_duplicates(),
        menu_order()[0] == Submenu::Application,
        menu_order().last() == Submenu::Help,
        menu_entries(submenu).len() > 0,
        !(menu_entries(submenu)[0] is Separator),
        !(menu_entries(submenu).last() is Separator),
{
    let order = menu_order();
    assert(order[0] == Submenu::Application);
    assert(order[1] == Submenu::Connection);
    assert(order[2] == Submenu::Edit);
    assert(order[3] == Submenu::View);
    assert(order[4] == Submenu::Window);
    assert(order[5] == Submenu::Help);
}

/// A part of the menu lists its entries in their order, each with its label, under its own title.
pub proof fn law_parts_list_their_entries(submenu: Submenu, labels: NativeMenuLabels, i: int)
    requires
        0 <= i < menu_entries(submenu).len(),
    ensures
        part_of(submenu, labels).items.len() == menu_entries(submenu).len(),
        part_of(submenu, labels).items[i] == (
            menu_entries(submenu)[i],
            label_of(menu_entries(submenu)[i], labels),
        ),
        part_of(Submenu::Application, labels).title == "Luna Mux"@,
        part_of(Submenu::Connection, labels).title == labels.connection_menu@,
        part_of(Submenu::Edit, labels).title == labels.edit_menu@,
        part_of(Submenu::View, labels).title == labels.view_menu@,
        part_of(Submenu::Window, labels).title == labels.window_menu@,
        part_of(Submenu::Help, labels).title == labels.help_menu@,
{
}

} // verus!
