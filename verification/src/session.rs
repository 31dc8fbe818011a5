//! Serving the requests of a host.

use vstd::prelude::*;

use crate::request::{
    command_of, parse_command, parse_fastboot_request, request_text, Command, CommandView,
};
use crate::response::{
    data, data_text, fail, fail_text, getvar_text, handle_getvar, is_response,
    lemma_responses_are_marked, plain_okay,
};
use crate::text::padded_hex;
use crate::usb::UsbEvent;

verus! {

/// The most bytes that a request holds.
pub const COMMAND_BUFFER_SIZE: usize = 0x10_0000;

/// What the device does about a request.
pub enum Step<'a> {
    /// Answer it with this response.
    Reply(String),
    /// Receive this many bytes.
    Download(usize),
    /// Boot this payload.
    Boot(&'a [u8]),
    /// Restart the machine.
    Reboot,
    /// Leave fastboot.
    Continue,
}

/// What a [`Step`] says.
pub enum StepView {
    /// Answer the request with this response.
    Reply(Seq<char>),
    /// Receive this many bytes.
    Download(nat),
    /// Boot this payload.
    Boot(Seq<u8>),
    /// Restart the machine.
    Reboot,
    /// Leave fastboot.
    Continue,
}

impl<'a> View for Step<'a> {
    type V = StepView;

    open spec fn view(&self) -> StepView {
        match self {
            Step::Reply(text) => StepView::Reply(text@),
            Step::Download(size) => StepView::Download(*size as nat),
            Step::Boot(payload) => StepView::Boot(payload@),
            Step::Reboot => StepView::Reboot,
            Step::Continue => StepView::Continue,
        }
    }
}

/// What the device does about a command when it holds `loaded`.
pub open spec fn step_for(
    loaded: Option<Seq<u8>>,
    command: CommandView,
    build_version: Seq<char>,
) -> StepView {
    match command {
        CommandView::Download(size) => StepView::Download(size),
        CommandView::BadDownloadSize => StepView::Reply(fail_text("invalid download size"@)),
        CommandView::Boot => match loaded {
            Some(payload) => StepView::Boot(payload),
            None => StepView::Reply(fail_text("download something first"@)),
        },
        CommandView::Reboot => StepView::Reboot,
        CommandView::Continue => StepView::Continue,
        CommandView::GetVar(variable) => StepView::Reply(getvar_text(variable, build_version)),
        CommandView::BadGetVar => StepView::Reply(fail_text("invalid getvar"@)),
        CommandView::Unknown => StepView::Reply(fail_text("unknown command"@)),
    }
}

/// What the device does about the bytes of a request when it holds `loaded`.
pub open spec fn step_of(
    loaded: Option<Seq<u8>>,
    request: Seq<u8>,
    build_version: Seq<char>,
) -> StepView {
    match request_text(request) {
        Some(text) => step_for(loaded, command_of(text), build_version),
        None => StepView::Reply(fail_text("malformed fastboot command"@)),
    }
}

/// The response that is sent before anything else is done; booting answers for itself.
pub open spec fn reply_of(step: StepView) -> Option<Seq<char>> {
    match step {
        StepView::Reply(text) => Some(text),
        StepView::Download(size) => Some(data_text(size)),
        StepView::Boot(_) => None,
        StepView::Reboot => Some("OKAY"@),
        StepView::Continue => Some("OKAY"@),
    }
}

impl<'a> Step<'a> {
    /// The response that is sent before anything else is done; booting answers for itself.
    pub fn reply(&self) -> (reply: Option<String>)
        ensures
            match reply_of(self@) {
                Some(expected) => reply matches Some(text) && text@ == expected,
                None => reply is None,
            },
    {
        match self {
            Step::Reply(text) => Some(text.clone()),
            Step::Download(size) => Some(data(*size)),
            Step::Boot(_) => None,
            Step::Reboot => Some(plain_okay()),
            Step::Continue => Some(plain_okay()),
        }
    }

    /// Tells whether another request is taken afterwards.
    pub fn serves_on(&self) -> (yes: bool)
        ensures
            yes == !(self@ is Reboot || self@ is Continue),
    {
        match self {
            Step::Reboot => false,
            Step::Continue => false,
            _ => true,
        }
    }
}

/// What the device does about a report of the USB controller.
pub enum SessionAction<'a> {
    /// Nothing.
    Wait,
    /// Take a request.
    TakeRequest,
    /// Serve the request that came.
    Serve(Step<'a>),
    /// Note the report.
    Note,
}

/// A host's session: what it has downloaded.
pub struct Session<'a> {
    /// The payload that was downloaded last.
    pub loaded: Option<&'a [u8]>,
}

impl<'a> View for Session<'a> {
    type V = Option<Seq<u8>>;

    open spec fn view(&self) -> Option<Seq<u8>> {
        match self.loaded {
            Some(payload) => Some(payload@),
            None => None,
        }
    }
}

impl<'a> Session<'a> {
    /// A session in which nothing was downloaded yet.
    pub fn new() -> (session: Session<'a>)
        ensures
            session@ is None,
    {
        Session { loaded: None }
    }

    /// Keeps a downloaded payload in place of the one before.
    pub fn keep(&mut self, payload: &'a [u8])
        ensures
            final(self)@ == Some(payload@),
    {
        self.loaded = Some(payload);
    }

    /// What the device does about the bytes of a request.
    pub fn handle_request(&self, request: &[u8], build_version: &str) -> (step: Step<'a>)
        ensures
            step@ == step_of(self@, request@, build_version@),
    {
        let text: &str = match parse_fastboot_request(request) {
            Ok(text) => text,
            Err(()) => {
                return Step::Reply(fail("malformed fastboot command"));
            },
        };
        match parse_command(text) {
            Command::Download(size) => Step::Download(size),
            Command::BadDownloadSize => Step::Reply(fail("invalid download size")),
            Command::Boot => match self.loaded {
                Some(payload) => Step::Boot(payload),
                None => Step::Reply(fail("download something first")),
            },
            Command::Reboot => Step::Reboot,
            Command::Continue => Step::Continue,
            Command::GetVar(variable) => Step::Reply(handle_getvar(variable, build_version)),
            Command::BadGetVar => Step::Reply(fail("invalid getvar")),
            Command::Unknown => Step::Reply(fail("unknown command")),
        }
    }

    /// What the device does about a report of the USB controller.
    pub fn handle_event(&self, event: &UsbEvent, build_version: &str) -> (action: SessionAction<
        'a,
    >)
        ensures
            match *event {
                UsbEvent::NoEvent => action is Wait,
                UsbEvent::Connected => action is TakeRequest,
                UsbEvent::OutData(request) => action matches SessionAction::Serve(step) && step@
                    == step_of(self@, request@, build_version@),
                UsbEvent::Disconnected => action is Note,
            },
    {
        match event {
            UsbEvent::NoEvent => SessionAction::Wait,
            UsbEvent::Connected => SessionAction::TakeRequest,
            UsbEvent::OutData(request) => {
                SessionAction::Serve(self.handle_request(request, build_version))
            },
            UsbEvent::Disconnected => SessionAction::Note,
        }
    }
}

/// A request to boot is about the payload that was downloaded last, and is refused as long as
/// there is none.
pub proof fn law_boot_takes_last_download(
    loaded: Option<Seq<u8>>,
    request: Seq<u8>,
    build_version: Seq<char>,
)
    requires
        request_text(request) == Some("boot"@),
    ensures
        match loaded {
            Some(payload) => step_of(loaded, request, build_version) == StepView::Boot(payload),
            None => step_of(loaded, request, build_version) == StepView::Reply(
                fail_text("download something first"@),
            ),
        },
{
    reveal_strlit("boot");
    reveal_strlit("download:");
}

/// Every request but one to boot a payload is answered at once, with the mark of a success, a
/// failure or a transfer.
pub proof fn law_requests_are_answered(
    loaded: Option<Seq<u8>>,
    request: Seq<u8>,
    build_version: Seq<char>,
)
    ensures
        match reply_of(step_of(loaded, request, build_version)) {
            Some(text) => is_response(text),
            None => loaded is Some && request_text(request) == Some("boot"@) && step_of(
                loaded,
                request,
                build_version,
            ) == StepView::Boot(loaded.unwrap()),
        },
{
    lemma_responses_are_marked();
}

/// Every request is served by what it asks for: a download of its size, a boot of the payload that
/// was downloaded last whatever it holds, a restart, an end, or an answer.
pub proof fn law_requests_are_served_by_what_they_ask(
    loaded: Option<Seq<u8>>,
    request: Seq<u8>,
    build_version: Seq<char>,
)
    ensures
        ({
            let step = step_of(loaded, request, build_version);
            match request_text(request) {
                None => step == StepView::Reply("FAIL"@ + "malformed fastboot command"@),
                Some(text) => match command_of(text) {
                    CommandView::Download(size) => step == StepView::Download(size),
                    CommandView::BadDownloadSize => step == StepView::Reply(
                        "FAIL"@ + "invalid download size"@,
                    ),
                    CommandView::Boot => match loaded {
                        Some(payload) => step == StepView::Boot(payload),
                        None => step == StepView::Reply("FAIL"@ + "download something first"@),
                    },
                    CommandView::Reboot => step is Reboot,
                    CommandView::Continue => step is Continue,
                    CommandView::GetVar(variable) => step == StepView::Reply(
                        getvar_text(variable, build_version),
                    ),
                    CommandView::BadGetVar => step == StepView::Reply("FAIL"@ + "invalid getvar"@),
                    CommandView::Unknown => step == StepView::Reply("FAIL"@ + "unknown command"@),
                },
            }
        }),
{
}

/// An answer is sent as it is, a download is announced with its size, a restart and an end are
/// acknowledged, and a boot is not answered yet.
pub proof fn law_steps_have_their_response(step: StepView)
    ensures
        match step {
            StepView::Reply(text) => reply_of(step) == Some(text),
            StepView::Download(size) => reply_of(step) == Some("DATA"@ + padded_hex(size, 8)),
            StepView::Boot(_) => reply_of(step) is None,
            StepView::Reboot => reply_of(step) == Some("OKAY"@),
            StepView::Continue => reply_of(step) == Some("OKAY"@),
        },
{
}

/// A step and a session say what their values say.
pub proof fn law_step_and_session_are_their_values(step: Step, session: Session)
    ensures
        match step {
            Step::Reply(text) => step@ == StepView::Reply(text@),
            Step::Download(size) => step@ == StepView::Download(size as nat),
            Step::Boot(payload) => step@ == StepView::Boot(payload@),
            Step::Reboot => step@ is Reboot,
            Step::Continue => step@ is Continue,
        },
        match session.loaded {
            Some(payload) => session@ == Some(payload@),
            None => session@ is None,
        },
        COMMAND_BUFFER_SIZE == 1024 * 1024,
{
}

} // verus!
