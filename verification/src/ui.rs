//! The setup dialog, as far as it decides anything: what it shows of the
//! context, and what the operator's choices do to the context.

use crate::address::{address_of, parse_boot_address};
use crate::protocol::configured;
use crate::state::{Activity, State, StateView};
use crate::text::{hex_address, hex_address_string};
use vstd::prelude::*;

verus! {

/// What happens in the setup dialog.
#[derive(Debug, PartialEq, Eq)]
pub enum SetupEvent {
    /// The dialog is about to be shown.
    Init,
    /// The operator has confirmed. The texts are what the file and address
    /// controls hold; `None` stands for a control that could not be read.
    Confirm { active: bool, kernel_path: Option<String>, boot_addr: Option<String> },
    /// The operator has cancelled.
    Cancel,
    /// The operator has asked for the file picker and has picked this file,
    /// or none.
    KernelChosen(Option<String>),
    /// Anything else.
    Other,
}

/// What the host is to do with the setup dialog.
#[derive(Debug, PartialEq, Eq)]
pub enum SetupAction {
    /// Fill the controls: the file if one is configured, the address, and
    /// the mark that says whether the engine is active.
    Show { kernel_path: Option<String>, boot_addr: String, active: bool },
    /// Close the dialog, as confirmed or as cancelled.
    Close { confirmed: bool },
    /// Put the text into the file control.
    SetKernelPath(String),
    /// Nothing.
    Nothing,
}

/// The answer to an event: the action, and whether the event counts as
/// handled.
#[derive(Debug, PartialEq, Eq)]
pub struct SetupReply {
    pub action: SetupAction,
    pub handled: bool,
}

/// A [`SetupEvent`] with its texts as sequences of characters.
pub enum SetupEventView {
    Init,
    Confirm { active: bool, kernel_path: Option<Seq<char>>, boot_addr: Option<Seq<char>> },
    Cancel,
    KernelChosen(Option<Seq<char>>),
    Other,
}

/// A [`SetupAction`] with its texts as sequences of characters.
pub enum SetupActionView {
    Show { kernel_path: Option<Seq<char>>, boot_addr: Seq<char>, active: bool },
    Close { confirmed: bool },
    SetKernelPath(Seq<char>),
    Nothing,
}

/// An optional text as a sequence of characters.
pub open spec fn text_view(text: Option<String>) -> Option<Seq<char>> {
    match text {
        Some(text) => Some(text@),
        None => None,
    }
}

impl View for SetupEvent {
    type V = SetupEventView;

    open spec fn view(&self) -> SetupEventView {
        match *self {
            SetupEvent::Init => SetupEventView::Init,
            SetupEvent::Confirm { active, kernel_path, boot_addr } => SetupEventView::Confirm {
                active,
                kernel_path: text_view(kernel_path),
                boot_addr: text_view(boot_addr),
            },
            SetupEvent::Cancel => SetupEventView::Cancel,
            SetupEvent::KernelChosen(path) => SetupEventView::KernelChosen(text_view(path)),
            SetupEvent::Other => SetupEventView::Other,
        }
    }
}

impl View for SetupAction {
    type V = SetupActionView;

    open spec fn view(&self) -> SetupActionView {
        match *self {
            SetupAction::Show { kernel_path, boot_addr, active } => SetupActionView::Show {
                kernel_path: text_view(kernel_path),
                boot_addr: boot_addr@,
                active,
            },
            SetupAction::Close { confirmed } => SetupActionView::Close { confirmed },
            SetupAction::SetKernelPath(path) => SetupActionView::SetKernelPath(path@),
            SetupAction::Nothing => SetupActionView::Nothing,
        }
    }
}

/// The address that the text of the address control gives, if it gives one.
pub open spec fn confirmed_addr(boot_addr: Option<Seq<char>>) -> Option<u32> {
    match boot_addr {
        Some(text) => address_of(text),
        None => None,
    }
}

/// The context after the event. Only a confirmation changes it: the file
/// and the address are set as the controls hold them, and the engine is
/// active if the mark is set and both are there.
pub open spec fn setup_state(s: StateView, event: SetupEventView) -> StateView {
    match event {
        SetupEventView::Confirm { active, kernel_path, boot_addr } => configured(
            s,
            kernel_path,
            confirmed_addr(boot_addr),
            active,
        ),
        _ => s,
    }
}

/// What the host is to do after the event. The dialog starts out with what
/// the context holds; confirming and cancelling close it; a picked file goes
/// into the file control.
pub open spec fn setup_action(s: StateView, event: SetupEventView) -> SetupActionView {
    match event {
        SetupEventView::Init => SetupActionView::Show {
            kernel_path: s.filename,
            boot_addr: hex_address(s.addr),
            active: s.activity != Activity::Inactive,
        },
        SetupEventView::Confirm { .. } => SetupActionView::Close { confirmed: true },
        SetupEventView::Cancel => SetupActionView::Close { confirmed: false },
        SetupEventView::KernelChosen(Some(path)) => SetupActionView::SetKernelPath(path),
        _ => SetupActionView::Nothing,
    }
}

/// Whether the event counts as handled: the start of the dialog and its two
/// ends do.
pub open spec fn setup_handled(event: SetupEventView) -> bool {
    event is Init || event is Confirm || event is Cancel
}

/// Answers an event of the setup dialog, and sets the context as the
/// operator has confirmed it.
pub fn litex_setup_dialog(s: &mut State, event: SetupEvent) -> (reply: SetupReply)
    requires
        old(s)@.wf(),
    ensures
        final(s)@.wf(),
        final(s)@ == setup_state(old(s)@, event@),
        reply.action@ == setup_action(old(s)@, event@),
        reply.handled == setup_handled(event@),
{
    match event {
        SetupEvent::Init => {
            let kernel_path = match s.filename() {
                Some(name) => Some(name.clone()),
                None => None,
            };
            let boot_addr = hex_address_string(s.addr());
            let active = s.activity() != Activity::Inactive;
            SetupReply {
                action: SetupAction::Show { kernel_path, boot_addr, active },
                handled: true,
            }
        },
        SetupEvent::Confirm { active, kernel_path, boot_addr } => {
            let addr = match boot_addr {
                Some(text) => match parse_boot_address(text) {
                    Ok(addr) => Some(addr),
                    Err(_) => None,
                },
                None => None,
            };
            s.configure(kernel_path, addr, active);
            SetupReply { action: SetupAction::Close { confirmed: true }, handled: true }
        },
        SetupEvent::Cancel => SetupReply {
            action: SetupAction::Close { confirmed: false },
            handled: true,
        },
        SetupEvent::KernelChosen(Some(path)) => SetupReply {
            action: SetupAction::SetKernelPath(path),
            handled: false,
        },
        _ => SetupReply { action: SetupAction::Nothing, handled: false },
    }
}

} // verus!
