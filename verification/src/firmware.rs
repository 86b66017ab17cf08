use vstd::prelude::*;
use vstd::string::StringExecFns;
use vstd::string::StringSliceAdditionalSpecFns;

use crate::graphics::drawing::{
    draw_elements, drawn_over, shapes_of, shapes_ok, Font, ScreenElement, ScreenShape, TextAlign,
};
use crate::graphics::framebuffer::EpdFramebuffer;

verus! {

/// How initialising the SD card failed; one variant for each error the card
/// driver reports.
#[derive(Clone, Copy, PartialEq, Eq, Debug, Structural)]
pub enum CardError {
    Transport,
    CantEnableCRC,
    TimeoutReadBuffer,
    TimeoutWaitNotBusy,
    TimeoutCommand(u8),
    TimeoutACommand(u8),
    Cmd58Error,
    RegisterReadError,
    CrcError(u16, u16),
    ReadError,
    WriteError,
    BadState,
    CardNotFound,
    GpioError,
}

/// How mounting the FAT volume failed; one variant for each error the
/// filesystem reports.
#[derive(Clone, Copy, PartialEq, Eq, Debug, Structural)]
pub enum MountError {
    DeviceError,
    FormatError,
    NoSuchVolume,
    FilenameError,
    TooManyOpenDirs,
    TooManyOpenFiles,
    FileNotFound,
    FileAlreadyOpen,
    DirAlreadyOpen,
    OpenedDirAsFile,
    Unsupported,
    EndOfFile,
    BadCluster,
    ConversionError,
    NotEnoughSpace,
    AllocationError,
    JumpedFree,
    ReadOnly,
    FileAlreadyExists,
}

/// The status code of a card error, 4 to 13.
pub open spec fn card_code(e: CardError) -> u8 {
    match e {
        CardError::CardNotFound => 4,
        CardError::CantEnableCRC => 5,
        CardError::Transport => 6,
        CardError::TimeoutCommand(_) => 7,
        CardError::TimeoutACommand(_) => 8,
        CardError::Cmd58Error => 9,
        CardError::TimeoutReadBuffer => 10,
        CardError::TimeoutWaitNotBusy => 11,
        CardError::GpioError => 12,
        _ => 13,
    }
}

/// The status code of a mount error, 14 to 17.
pub open spec fn mount_code(e: MountError) -> u8 {
    match e {
        MountError::DeviceError => 14,
        MountError::FormatError => 15,
        MountError::NoSuchVolume => 16,
        _ => 17,
    }
}

/// The status code of the card's initialisation: 0 when it worked.
pub fn card_error_code(result: Result<(), CardError>) -> (code: u8)
    ensures
        code == match result {
            Ok(()) => 0u8,
            Err(e) => card_code(e),
        },
        result is Ok <==> code == 0,
        result is Err ==> 4 <= code <= 13,
{
    match result {
        Ok(()) => 0,
        Err(error) => match error {
            CardError::CardNotFound => 4,
            CardError::CantEnableCRC => 5,
            CardError::Transport => 6,
            CardError::TimeoutCommand(_) => 7,
            CardError::TimeoutACommand(_) => 8,
            CardError::Cmd58Error => 9,
            CardError::TimeoutReadBuffer => 10,
            CardError::TimeoutWaitNotBusy => 11,
            CardError::GpioError => 12,
            _ => 13,
        },
    }
}

/// The status code of mounting volume 0: 0 when it worked.
pub fn mount_error_code(result: Result<(), MountError>) -> (code: u8)
    ensures
        code == match result {
            Ok(()) => 0u8,
            Err(e) => mount_code(e),
        },
        result is Ok <==> code == 0,
        result is Err ==> 14 <= code <= 17,
{
    match result {
        Ok(()) => 0,
        Err(MountError::DeviceError) => 14,
        Err(MountError::FormatError) => 15,
        Err(MountError::NoSuchVolume) => 16,
        Err(_) => 17,
    }
}

/// The code to report at start-up, shown on the panel and flashed on the
/// LED: the card's code when the card failed, else the volume's.
pub fn startup_status_code(init_code: u8, fat_code: u8) -> (code: u8)
    ensures
        code == if init_code == 0 {
            fat_code
        } else {
            init_code
        },
{
    if init_code == 0 {
        fat_code
    } else {
        init_code
    }
}

/// The message shown for a status code.
pub open spec fn status_text(code: u8) -> Seq<char> {
    if code == 3 || code == 17 {
        "FAT MOUNT ERROR"@
    } else if code == 4 {
        "CARD NOT FOUND"@
    } else if code == 5 {
        "CRC SETUP ERROR"@
    } else if code == 6 {
        "SPI ERROR"@
    } else if code == 7 {
        "CMD TIMEOUT"@
    } else if code == 8 {
        "ACMD TIMEOUT"@
    } else if 9 <= code <= 13 {
        "SD INIT ERROR"@
    } else if code == 14 {
        "SD READ ERROR"@
    } else if code == 15 {
        "FAT FORMAT ERROR"@
    } else if code == 16 {
        "NO VOLUME 0"@
    } else {
        "SD UNKNOWN ERROR"@
    }
}

/// The message shown on the panel for a status code.
pub fn sd_status_message(code: u8) -> (message: &'static str)
    ensures
        message@ == status_text(code),
{
    match code {
        3 => "FAT MOUNT ERROR",
        4 => "CARD NOT FOUND",
        5 => "CRC SETUP ERROR",
        6 => "SPI ERROR",
        7 => "CMD TIMEOUT",
        8 => "ACMD TIMEOUT",
        9..=13 => "SD INIT ERROR",
        14 => "SD READ ERROR",
        15 => "FAT FORMAT ERROR",
        16 => "NO VOLUME 0",
        17 => "FAT MOUNT ERROR",
        _ => "SD UNKNOWN ERROR",
    }
}

/// A line of the status screen, in the bold font.
pub open spec fn status_line(text: Seq<char>, x: i32, y: i32) -> ScreenShape {
    ScreenShape::Text { text, x, y, font: Font::Bold, align: TextAlign::Left }
}

/// The screen shown when the card or its volume could not be used: a
/// heading, the message for `code`, and a prompt to put the card in again.
pub open spec fn status_screen_shapes(code: u8) -> Seq<ScreenShape> {
    seq![
        status_line("SD STATUS"@, 45, 70),
        status_line(status_text(code), 20, 105),
        status_line("RECHECK CARD"@, 35, 140),
    ]
}

/// What the status screen for `code` shows, to be drawn on a blank frame.
pub fn status_screen(code: u8) -> (elements: Vec<ScreenElement>)
    ensures
        shapes_of(elements@) == status_screen_shapes(code),
        shapes_ok(shapes_of(elements@)),
{
    proof {
        reveal_strlit("SD STATUS");
        reveal_strlit("RECHECK CARD");
        reveal_strlit("FAT MOUNT ERROR");
        reveal_strlit("CARD NOT FOUND");
        reveal_strlit("CRC SETUP ERROR");
        reveal_strlit("SPI ERROR");
        reveal_strlit("CMD TIMEOUT");
        reveal_strlit("ACMD TIMEOUT");
        reveal_strlit("SD INIT ERROR");
        reveal_strlit("SD READ ERROR");
        reveal_strlit("FAT FORMAT ERROR");
        reveal_strlit("NO VOLUME 0");
        reveal_strlit("SD UNKNOWN ERROR");
    }
    let mut elements: Vec<ScreenElement> = Vec::new();
    elements.push(
        ScreenElement::Text {
            text: String::from_str("SD STATUS"),
            x: 45,
            y: 70,
            font: Font::Bold,
            align: TextAlign::Left,
        },
    );
    elements.push(
        ScreenElement::Text {
            text: String::from_str(sd_status_message(code)),
            x: 20,
            y: 105,
            font: Font::Bold,
            align: TextAlign::Left,
        },
    );
    elements.push(
        ScreenElement::Text {
            text: String::from_str("RECHECK CARD"),
            x: 35,
            y: 140,
            font: Font::Bold,
            align: TextAlign::Left,
        },
    );
    assert(shapes_of(elements@) =~= status_screen_shapes(code));
    assert(status_text(code).len() <= 16);
    assert(shapes_ok(shapes_of(elements@)));
    elements
}

/// The status screen for `code`, drawn on a blank frame.
pub fn draw_status_screen(code: u8) -> (fb: EpdFramebuffer)
    ensures
        fb@ == drawn_over(Seq::new(5000, |i: int| 0u8), status_screen_shapes(code)),
{
    let mut fb = EpdFramebuffer::new();
    draw_elements(&mut fb, &status_screen(code));
    fb
}

/// Whether a file name, as its bytes, goes into the menu: it ends in ".BMP",
/// does not start with "._" and holds no underscore.
pub open spec fn listed_name(b: Seq<u8>) -> bool {
    &&& b.len() >= 4
    &&& b[b.len() - 4] == 0x2E && b[b.len() - 3] == 0x42 && b[b.len() - 2] == 0x4D && b[b.len()
        - 1] == 0x50
    &&& !(b.len() >= 2 && b[0] == 0x2E && b[1] == 0x5F)
    &&& !b.contains(0x5Fu8)
}

/// A file name is listed exactly when its last four bytes are ".BMP", its
/// first two are not "._", and no byte of it is '_'; any other byte, such as
/// the '~' and digits of a FAT short name, leaves it listed.
pub proof fn lemma_listed_name(b: Seq<u8>)
    ensures
        listed_name(b) == ({
            &&& b.len() >= 4
            &&& b.subrange(b.len() - 4, b.len() as int) == seq![0x2Eu8, 0x42u8, 0x4Du8, 0x50u8]
            &&& !(b.len() >= 2 && b[0] == 0x2Eu8 && b[1] == 0x5Fu8)
            &&& forall|i: int| 0 <= i < b.len() ==> b[i] != 0x5Fu8
        }),
{
    if b.len() >= 4 {
        let tail = b.subrange(b.len() - 4, b.len() as int);
        let bmp = seq![0x2Eu8, 0x42u8, 0x4Du8, 0x50u8];
        if tail =~= bmp {
            assert(tail[0] == b[b.len() - 4] && tail[3] == b[b.len() - 1]);
        }
        if b[b.len() - 4] == 0x2E && b[b.len() - 3] == 0x42 && b[b.len() - 2] == 0x4D
            && b[b.len() - 1] == 0x50 {
            assert(tail =~= bmp);
        }
    }
    if b.contains(0x5Fu8) {
        let k = choose|k: int| 0 <= k < b.len() && b[k] == 0x5Fu8;
        assert(b[k] == 0x5Fu8);
    }
    if exists|i: int| 0 <= i < b.len() && b[i] == 0x5Fu8 {
        let k = choose|k: int| 0 <= k < b.len() && b[k] == 0x5Fu8;
        assert(b.contains(0x5Fu8));
    }
}

/// Whether a file in the card's root directory is one of the images listed
/// in the menu.
pub fn is_listed_bmp(name: &str) -> (listed: bool)
    ensures
        listed == listed_name(name.spec_bytes()),
        listed == ({
            let b = name.spec_bytes();
            &&& b.len() >= 4
            &&& b.subrange(b.len() - 4, b.len() as int) == seq![0x2Eu8, 0x42u8, 0x4Du8, 0x50u8]
            &&& !(b.len() >= 2 && b[0] == 0x2Eu8 && b[1] == 0x5Fu8)
            &&& forall|i: int| 0 <= i < b.len() ==> b[i] != 0x5Fu8
        }),
{
    proof {
        lemma_listed_name(name.spec_bytes());
    }
    let b = name.as_bytes();
    let n = b.len();
    if n < 4 || b[n - 4] != 0x2E || b[n - 3] != 0x42 || b[n - 2] != 0x4D || b[n - 1] != 0x50 {
        return false;
    }
    if b[0] == 0x2E && b[1] == 0x5F {
        return false;
    }
    let mut i: usize = 0;
    while i < n
        invariant
            n == b@.len(),
            b@ == name.spec_bytes(),
            i <= n,
            forall|j: int| 0 <= j < i ==> b@[j] != 0x5Fu8,
        decreases n - i,
    {
        if b[i] == 0x5F {
            assert(b@[i as int] == 0x5Fu8);
            assert(b@.contains(0x5Fu8));
            return false;
        }
        i = i + 1;
    }
    true
}

/// What the firmware shows.
#[derive(Clone, Copy, PartialEq, Eq, Debug, Structural)]
pub enum AppState {
    Menu,
    ShowingImage,
}

/// What one pass of the main loop does, besides waiting.
#[derive(Clone, Copy, PartialEq, Eq, Debug, Structural)]
pub struct LoopActions {
    /// Move the selection on and redraw the menu.
    pub next_image: bool,
    /// Load the selected image and show it.
    pub show_image: bool,
    /// Go back from the image to the menu.
    pub back_to_menu: bool,
}

/// The buttons' last readings and what is on screen.
#[derive(Clone, Copy, PartialEq, Eq, Debug, Structural)]
pub struct Controls {
    pub state: AppState,
    pub last_next: bool,
    pub last_select: bool,
}

/// What a pass with these button readings does: a button acts when it goes
/// from released to pressed. On the menu, Next moves on and Select shows the
/// selected image; on an image, Select goes back to the menu.
pub open spec fn actions_for(c: Controls, next_pressed: bool, select_pressed: bool) -> LoopActions {
    let next_edge = next_pressed && !c.last_next;
    let select_edge = select_pressed && !c.last_select;
    match c.state {
        AppState::Menu => LoopActions {
            next_image: next_edge,
            show_image: select_edge,
            back_to_menu: false,
        },
        AppState::ShowingImage => LoopActions {
            next_image: false,
            show_image: false,
            back_to_menu: select_edge,
        },
    }
}

/// The controls after a pass with these button readings.
pub open spec fn controls_after(c: Controls, next_pressed: bool, select_pressed: bool) -> Controls {
    let select_edge = select_pressed && !c.last_select;
    Controls {
        state: if select_edge {
            match c.state {
                AppState::Menu => AppState::ShowingImage,
                AppState::ShowingImage => AppState::Menu,
            }
        } else {
            c.state
        },
        last_next: next_pressed,
        last_select: select_pressed,
    }
}

/// Nothing to do.
pub open spec fn no_actions() -> LoopActions {
    LoopActions { next_image: false, show_image: false, back_to_menu: false }
}

impl Controls {
    /// The start: the menu on screen and both buttons taken as released.
    pub fn new() -> (c: Self)
        ensures
            c == (Controls { state: AppState::Menu, last_next: true, last_select: true }),
    {
        Controls { state: AppState::Menu, last_next: true, last_select: true }
    }

    /// One pass of the main loop with the buttons read as given (`true` when pressed).
    pub fn step(&mut self, next_pressed: bool, select_pressed: bool) -> (actions: LoopActions)
        ensures
            actions == actions_for(*old(self), next_pressed, select_pressed),
            *final(self) == controls_after(*old(self), next_pressed, select_pressed),
    {
        let next_edge = next_pressed && !self.last_next;
        let select_edge = select_pressed && !self.last_select;
        let mut actions = LoopActions { next_image: false, show_image: false, back_to_menu: false };
        match self.state {
            AppState::Menu => {
                if next_edge {
                    actions.next_image = true;
                }
                if select_edge {
                    actions.show_image = true;
                    self.state = AppState::ShowingImage;
                }
            },
            AppState::ShowingImage => {
                if select_edge {
                    actions.back_to_menu = true;
                    self.state = AppState::Menu;
                }
            },
        }
        self.last_next = next_pressed;
        self.last_select = select_pressed;
        actions
    }
}

/// A button held down acts once: a second pass with the same readings does nothing.
pub proof fn lemma_held_buttons_act_once(c: Controls, next_pressed: bool, select_pressed: bool)
    ensures
        actions_for(controls_after(c, next_pressed, select_pressed), next_pressed, select_pressed)
            == no_actions(),
{
}

/// Pressing Select on the menu shows an image, and pressing it again (after
/// releasing it) goes back to the menu.
pub proof fn lemma_select_toggles(c: Controls)
    requires
        c.state == AppState::Menu,
        !c.last_select,
    ensures
        actions_for(c, false, true).show_image,
        controls_after(c, false, true).state == AppState::ShowingImage,
        actions_for(
            controls_after(controls_after(c, false, true), false, false),
            false,
            true,
        ).back_to_menu,
        controls_after(
            controls_after(controls_after(c, false, true), false, false),
            false,
            true,
        ).state == AppState::Menu,
{
}

} // verus!
