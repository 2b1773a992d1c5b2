//! The program's menu: which style a selected number runs.
use vstd::prelude::*;

verus! {

/// The styles the menu offers.
#[derive(PartialEq, Eq, Structural, Clone, Copy, Debug)]
pub enum Style {
    Pipeline,
    Golf,
    InfiniteMirror,
    KickForward,
    TheOne,
    Things,
    Letterbox,
    ClosedMaps,
    AbstractThings,
    Hollywood,
    BulletinBoard,
    Aspects,
    Constructivist,
    Tantrum,
    Quarantine,
    PersistentTables,
    LazyRivers,
    LazyRiversMessagePassing,
    Actors,
}

/// What a selection asks for.
#[derive(PartialEq, Eq, Structural, Clone, Copy, Debug)]
pub enum MenuChoice {
    /// Leave the program.
    Exit,
    /// Run a style, then leave.
    Run(Style),
    /// No such entry: ask again.
    Invalid,
}

/// The style each number of the menu runs.
pub open spec fn style_of(select: i32) -> Option<Style> {
    if select == 5 {
        Some(Style::Pipeline)
    } else if select == 6 {
        Some(Style::Golf)
    } else if select == 7 {
        Some(Style::InfiniteMirror)
    } else if select == 8 {
        Some(Style::KickForward)
    } else if select == 9 {
        Some(Style::TheOne)
    } else if select == 10 {
        Some(Style::Things)
    } else if select == 11 {
        Some(Style::Letterbox)
    } else if select == 12 {
        Some(Style::ClosedMaps)
    } else if select == 13 {
        Some(Style::AbstractThings)
    } else if select == 14 {
        Some(Style::Hollywood)
    } else if select == 15 {
        Some(Style::BulletinBoard)
    } else if select == 18 {
        Some(Style::Aspects)
    } else if select == 20 {
        Some(Style::Constructivist)
    } else if select == 21 {
        Some(Style::Tantrum)
    } else if select == 24 {
        Some(Style::Quarantine)
    } else if select == 25 {
        Some(Style::PersistentTables)
    } else if select == 27 {
        Some(Style::LazyRivers)
    } else if select == 271 {
        Some(Style::LazyRiversMessagePassing)
    } else if select == 28 {
        Some(Style::Actors)
    } else {
        None
    }
}

/// What the selected number asks for: 0 leaves, a listed number runs its style, any other
/// number is invalid.
pub fn menu_choice(select: i32) -> (c: MenuChoice)
    ensures
        select == 0 ==> c == MenuChoice::Exit,
        select != 0 ==> c == match style_of(select) {
            Some(s) => MenuChoice::Run(s),
            None => MenuChoice::Invalid,
        },
{
    let style = if select == 5 {
        Some(Style::Pipeline)
    } else if select == 6 {
        Some(Style::Golf)
    } else if select == 7 {
        Some(Style::InfiniteMirror)
    } else if select == 8 {
        Some(Style::KickForward)
    } else if select == 9 {
        Some(Style::TheOne)
    } else if select == 10 {
        Some(Style::Things)
    } else if select == 11 {
        Some(Style::Letterbox)
    } else if select == 12 {
        Some(Style::ClosedMaps)
    } else if select == 13 {
        Some(Style::AbstractThings)
    } else if select == 14 {
        Some(Style::Hollywood)
    } else if select == 15 {
        Some(Style::BulletinBoard)
    } else if select == 18 {
        Some(Style::Aspects)
    } else if select == 20 {
        Some(Style::Constructivist)
    } else if select == 21 {
        Some(Style::Tantrum)
    } else if select == 24 {
        Some(Style::Quarantine)
    } else if select == 25 {
        Some(Style::PersistentTables)
    } else if select == 27 {
        Some(Style::LazyRivers)
    } else if select == 271 {
        Some(Style::LazyRiversMessagePassing)
    } else if select == 28 {
        Some(Style::Actors)
    } else {
        None
    };
    if select == 0 {
        MenuChoice::Exit
    } else {
        match style {
            Some(s) => MenuChoice::Run(s),
            None => MenuChoice::Invalid,
        }
    }
}

} // verus!
