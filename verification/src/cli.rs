//! The commands of the tool, what each needs before it can run, and the menu
//! from which a command is picked when none is given.

use crate::text::slices_equal;
use crate::text::to_chars;
use vstd::prelude::*;

verus! {

/// What the user asks for.
pub enum Commands {
    /// Open an app.
    Open,
    /// Uninstall an app.
    Uninstall,
    /// Clear the data of an app.
    Clear,
    /// Stop an app by force.
    ForceKill,
    /// Copy the package file of an app from the device.
    Download { output: Option<String> },
    /// Show the version and the granted permissions of an app.
    AppInfo,
    /// Show the properties of the device.
    Device,
    /// Take a picture of the screen.
    Screenshot { output: Option<String> },
    /// Record the screen.
    Record { output: Option<String> },
    /// Show the addresses and the wireless network of the device.
    Network,
    /// Reach the device over the wireless network.
    Wifi,
    /// Reach the device over the cable again.
    Usb,
    /// Show battery, storage, memory and network of the device.
    Health,
    /// Open a link on the device.
    Launch { url: String },
    /// Grant permissions to an app.
    Grant,
    /// Revoke permissions from an app.
    Revoke,
    /// Install a package file or a bundle from local disk.
    Install { file: String },
    /// Describe a package file or a bundle on local disk.
    Info { file: String },
    /// Show the crashes, or the failures to respond, that the device has logged.
    Crashes { package: Option<String>, since: u32, native: bool },
}

/// The command line: a command, or none, in which case the menu is shown.
pub struct Cli {
    pub command: Option<Commands>,
}

/// What has to be chosen before a command can run.
#[derive(Clone, Copy, PartialEq, Eq, Structural, Debug)]
pub enum Needs {
    /// Nothing: the command works on local files.
    Nothing,
    /// A device.
    Device,
    /// A device and one of its apps.
    DeviceAndApp,
}

impl Commands {
    /// What the command needs.
    pub open spec fn spec_needs(&self) -> Needs {
        match self {
            Commands::Info { .. } => Needs::Nothing,
            Commands::Open
            | Commands::Uninstall
            | Commands::Clear
            | Commands::ForceKill
            | Commands::Download { .. }
            | Commands::AppInfo
            | Commands::Grant
            | Commands::Revoke => Needs::DeviceAndApp,
            _ => Needs::Device,
        }
    }

    /// What the command needs before it can run.
    pub fn needs(&self) -> (n: Needs)
        ensures
            n == self.spec_needs(),
    {
        match self {
            Commands::Info { .. } => Needs::Nothing,
            Commands::Open => Needs::DeviceAndApp,
            Commands::Uninstall => Needs::DeviceAndApp,
            Commands::Clear => Needs::DeviceAndApp,
            Commands::ForceKill => Needs::DeviceAndApp,
            Commands::Download { .. } => Needs::DeviceAndApp,
            Commands::AppInfo => Needs::DeviceAndApp,
            Commands::Grant => Needs::DeviceAndApp,
            Commands::Revoke => Needs::DeviceAndApp,
            _ => Needs::Device,
        }
    }
}

impl Cli {
    /// What has to be chosen before the command line can be served. Without a
    /// command the menu is shown for an app of a device.
    pub fn needs(&self) -> (n: Needs)
        ensures
            n == match self.command {
                Some(command) => command.spec_needs(),
                None => Needs::DeviceAndApp,
            },
    {
        match &self.command {
            Some(command) => command.needs(),
            None => Needs::DeviceAndApp,
        }
    }
}

/// An entry of the menu.
#[derive(Clone, Copy, PartialEq, Eq, Structural, Debug)]
pub enum MenuAction {
    Open,
    AppInfo,
    Uninstall,
    Clear,
    ForceKill,
    Download,
    Grant,
    Revoke,
}

/// The text of a menu entry.
pub open spec fn label_of(action: MenuAction) -> Seq<char> {
    match action {
        MenuAction::Open => "Open"@,
        MenuAction::AppInfo => "App Info"@,
        MenuAction::Uninstall => "Uninstall"@,
        MenuAction::Clear => "Clear App Data"@,
        MenuAction::ForceKill => "Force Kill"@,
        MenuAction::Download => "Download APK"@,
        MenuAction::Grant => "Grant Permissions"@,
        MenuAction::Revoke => "Revoke Permissions"@,
    }
}

/// The menu entry with a given text, if there is one.
pub open spec fn action_of(label: Seq<char>) -> Option<MenuAction> {
    if label == "Open"@ {
        Some(MenuAction::Open)
    } else if label == "App Info"@ {
        Some(MenuAction::AppInfo)
    } else if label == "Uninstall"@ {
        Some(MenuAction::Uninstall)
    } else if label == "Clear App Data"@ {
        Some(MenuAction::Clear)
    } else if label == "Force Kill"@ {
        Some(MenuAction::ForceKill)
    } else if label == "Download APK"@ {
        Some(MenuAction::Download)
    } else if label == "Grant Permissions"@ {
        Some(MenuAction::Grant)
    } else if label == "Revoke Permissions"@ {
        Some(MenuAction::Revoke)
    } else {
        None
    }
}

/// The entries of the menu, in the order in which they are shown.
pub open spec fn menu() -> Seq<MenuAction> {
    seq![
        MenuAction::Open,
        MenuAction::AppInfo,
        MenuAction::Uninstall,
        MenuAction::Clear,
        MenuAction::ForceKill,
        MenuAction::Download,
        MenuAction::Grant,
        MenuAction::Revoke,
    ]
}

/// Every entry is found again by its text: no two entries have the same text.
pub proof fn lemma_label_names_its_action(action: MenuAction)
    ensures
        action_of(label_of(action)) == Some(action),
{
    reveal_strlit("Open");
    reveal_strlit("App Info");
    reveal_strlit("Uninstall");
    reveal_strlit("Clear App Data");
    reveal_strlit("Force Kill");
    reveal_strlit("Download APK");
    reveal_strlit("Grant Permissions");
    reveal_strlit("Revoke Permissions");
    assert("Open"@.len() == 4);
    assert("App Info"@.len() == 8);
    assert("Uninstall"@.len() == 9);
    assert("Clear App Data"@.len() == 14);
    assert("Force Kill"@.len() == 10);
    assert("Download APK"@.len() == 12);
    assert("Grant Permissions"@.len() == 17);
    assert("Revoke Permissions"@.len() == 18);
}

impl MenuAction {
    /// The text of the entry.
    pub fn label(&self) -> (label: &'static str)
        ensures
            label@ == label_of(*self),
    {
        match self {
            MenuAction::Open => "Open",
            MenuAction::AppInfo => "App Info",
            MenuAction::Uninstall => "Uninstall",
            MenuAction::Clear => "Clear App Data",
            MenuAction::ForceKill => "Force Kill",
            MenuAction::Download => "Download APK",
            MenuAction::Grant => "Grant Permissions",
            MenuAction::Revoke => "Revoke Permissions",
        }
    }

    /// The entry with the given text, if there is one.
    pub fn from_label(label: &str) -> (action: Option<MenuAction>)
        ensures
            action == action_of(label@),
    {
        let chars = to_chars(label);
        let text = chars.as_slice();
        if slices_equal(text, to_chars("Open").as_slice()) {
            Some(MenuAction::Open)
        } else if slices_equal(text, to_chars("App Info").as_slice()) {
            Some(MenuAction::AppInfo)
        } else if slices_equal(text, to_chars("Uninstall").as_slice()) {
            Some(MenuAction::Uninstall)
        } else if slices_equal(text, to_chars("Clear App Data").as_slice()) {
            Some(MenuAction::Clear)
        } else if slices_equal(text, to_chars("Force Kill").as_slice()) {
            Some(MenuAction::ForceKill)
        } else if slices_equal(text, to_chars("Download APK").as_slice()) {
            Some(MenuAction::Download)
        } else if slices_equal(text, to_chars("Grant Permissions").as_slice()) {
            Some(MenuAction::Grant)
        } else if slices_equal(text, to_chars("Revoke Permissions").as_slice()) {
            Some(MenuAction::Revoke)
        } else {
            None
        }
    }

    /// The command that the entry stands for. A download from the menu has no
    /// output path.
    pub fn command(&self) -> (command: Commands)
        ensures
            match *self {
                MenuAction::Open => command is Open,
                MenuAction::AppInfo => command is AppInfo,
                MenuAction::Uninstall => command is Uninstall,
                MenuAction::Clear => command is Clear,
                MenuAction::ForceKill => command is ForceKill,
                MenuAction::Download => command matches Commands::Download { output: None },
                MenuAction::Grant => command is Grant,
                MenuAction::Revoke => command is Revoke,
            },
            command.spec_needs() == Needs::DeviceAndApp,
    {
        match self {
            MenuAction::Open => Commands::Open,
            MenuAction::AppInfo => Commands::AppInfo,
            MenuAction::Uninstall => Commands::Uninstall,
            MenuAction::Clear => Commands::Clear,
            MenuAction::ForceKill => Commands::ForceKill,
            MenuAction::Download => Commands::Download { output: None },
            MenuAction::Grant => Commands::Grant,
            MenuAction::Revoke => Commands::Revoke,
        }
    }
}

/// The entries of the menu, in the order in which they are shown.
pub fn menu_actions() -> (actions: Vec<MenuAction>)
    ensures
        actions@ == menu(),
{
    let mut actions: Vec<MenuAction> = Vec::new();
    actions.push(MenuAction::Open);
    actions.push(MenuAction::AppInfo);
    actions.push(MenuAction::Uninstall);
    actions.push(MenuAction::Clear);
    actions.push(MenuAction::ForceKill);
    actions.push(MenuAction::Download);
    actions.push(MenuAction::Grant);
    actions.push(MenuAction::Revoke);
    assert(actions@ =~= menu());
    actions
}

/// Whether the user has to pick a device: only where more than one is
/// connected; a single device is taken as it is.
pub fn must_pick_device(connected: usize) -> (b: bool)
    ensures
        b == (connected > 1),
{
    connected > 1
}

} // verus!
