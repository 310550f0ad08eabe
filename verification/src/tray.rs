//! What the tray icon shows and offers.
use vstd::prelude::*;

verus! {

/// What an entry of the menu does.
#[derive(Clone, Copy, Debug, PartialEq, Eq, Structural)]
pub enum Activation {
    Nothing,
    /// Ends the session.
    Disconnect,
    /// Ends the session and the server.
    Quit,
}

/// An entry of the menu.
pub enum Entry {
    Separator,
    Item { label: String, icon_name: String, enabled: bool, activation: Activation },
}

/// What an entry of the menu is.
pub enum Shown {
    Separator,
    Item { label: Seq<char>, icon_name: Seq<char>, enabled: bool, activation: Activation },
}

impl View for Entry {
    type V = Shown;

    open spec fn view(&self) -> Shown {
        match self {
            Entry::Separator => Shown::Separator,
            Entry::Item { label, icon_name, enabled, activation } => Shown::Item {
                label: label@,
                icon_name: icon_name@,
                enabled: *enabled,
                activation: *activation,
            },
        }
    }
}

/// What each entry is.
pub open spec fn shown(v: Seq<Entry>) -> Seq<Shown> {
    v.map_values(|e: Entry| e@)
}

/// The menu: the status, which cannot be chosen, then how to end the session, which can be chosen
/// while there is one, then how to end the server.
pub open spec fn menu_shown(status: Seq<char>, connected: bool) -> Seq<Shown> {
    seq![
        Shown::Item {
            label: status,
            icon_name: Seq::empty(),
            enabled: false,
            activation: Activation::Nothing,
        },
        Shown::Separator,
        Shown::Item {
            label: "Disconnect tablet"@,
            icon_name: "network-disconnect"@,
            enabled: connected,
            activation: Activation::Disconnect,
        },
        Shown::Separator,
        Shown::Item {
            label: "Quit TabScreen server"@,
            icon_name: "application-exit"@,
            enabled: true,
            activation: Activation::Quit,
        },
    ]
}

/// The menu of the tray icon.
pub fn menu(status: &str, connected: bool) -> (r: Vec<Entry>)
    ensures
        shown(r@) == menu_shown(status@, connected),
{
    let mut r: Vec<Entry> = Vec::new();
    r.push(
        Entry::Item {
            label: status.to_owned(),
            icon_name: String::new(),
            enabled: false,
            activation: Activation::Nothing,
        },
    );
    r.push(Entry::Separator);
    r.push(
        Entry::Item {
            label: "Disconnect tablet".to_owned(),
            icon_name: "network-disconnect".to_owned(),
            enabled: connected,
            activation: Activation::Disconnect,
        },
    );
    r.push(Entry::Separator);
    r.push(
        Entry::Item {
            label: "Quit TabScreen server".to_owned(),
            icon_name: "application-exit".to_owned(),
            enabled: true,
            activation: Activation::Quit,
        },
    );
    assert(shown(r@) =~= menu_shown(status@, connected));
    r
}

/// The menu starts with the status, which does nothing. The session can be ended by one entry, while
/// there is one, and the server by one entry, at any time.
pub proof fn the_menu_offers_what_can_be_done(status: Seq<char>, connected: bool, i: int)
    requires
        0 <= i < menu_shown(status, connected).len(),
    ensures
        ({
            let menu = menu_shown(status, connected);
            &&& menu[0] matches Shown::Item { label, icon_name, enabled, activation } && label
                == status && !enabled && activation == Activation::Nothing
            &&& menu[i] matches Shown::Item { label, icon_name, enabled, activation } ==> {
                &&& activation == Activation::Quit ==> enabled
                &&& activation == Activation::Disconnect ==> enabled == connected
                &&& activation == Activation::Nothing ==> i == 0
            }
            &&& exists|k: int|
                0 <= k < menu.len() && ((#[trigger] menu[k]) matches Shown::Item {
                    label,
                    icon_name,
                    enabled,
                    activation,
                } && activation == Activation::Disconnect && label == "Disconnect tablet"@)
            &&& exists|k: int|
                0 <= k < menu.len() && ((#[trigger] menu[k]) matches Shown::Item {
                    label,
                    icon_name,
                    enabled,
                    activation,
                } && activation == Activation::Quit && label == "Quit TabScreen server"@)
        }),
{
    let menu = menu_shown(status, connected);
    assert(menu[2] is Item && menu[2]->activation == Activation::Disconnect);
    assert(menu[4] is Item && menu[4]->activation == Activation::Quit);
}

} // verus!
