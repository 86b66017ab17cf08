use frame::firmware::{
    card_error_code, is_listed_bmp, mount_error_code, sd_status_message, startup_status_code,
    AppState, CardError, Controls, LoopActions, MountError,
};
use frame::firmware::{draw_status_screen, status_screen};
use frame::graphics::{Font, ScreenElement, TextAlign};

#[test]
fn card_errors_have_codes_4_to_13() {
    assert_eq!(card_error_code(Ok(())), 0);
    assert_eq!(card_error_code(Err(CardError::CardNotFound)), 4);
    assert_eq!(card_error_code(Err(CardError::CantEnableCRC)), 5);
    assert_eq!(card_error_code(Err(CardError::Transport)), 6);
    assert_eq!(card_error_code(Err(CardError::TimeoutCommand(55))), 7);
    assert_eq!(card_error_code(Err(CardError::TimeoutACommand(41))), 8);
    assert_eq!(card_error_code(Err(CardError::Cmd58Error)), 9);
    assert_eq!(card_error_code(Err(CardError::TimeoutReadBuffer)), 10);
    assert_eq!(card_error_code(Err(CardError::TimeoutWaitNotBusy)), 11);
    assert_eq!(card_error_code(Err(CardError::GpioError)), 12);
    assert_eq!(card_error_code(Err(CardError::CrcError(1, 2))), 13);
    assert_eq!(card_error_code(Err(CardError::BadState)), 13);
}

#[test]
fn mount_errors_have_codes_14_to_17() {
    assert_eq!(mount_error_code(Ok(())), 0);
    assert_eq!(mount_error_code(Err(MountError::DeviceError)), 14);
    assert_eq!(mount_error_code(Err(MountError::FormatError)), 15);
    assert_eq!(mount_error_code(Err(MountError::NoSuchVolume)), 16);
    assert_eq!(mount_error_code(Err(MountError::FileNotFound)), 17);
}

#[test]
fn startup_code_prefers_the_card_error() {
    assert_eq!(startup_status_code(0, 0), 0);
    assert_eq!(startup_status_code(0, 15), 15);
    assert_eq!(startup_status_code(4, 0), 4);
}

#[test]
fn status_messages() {
    assert_eq!(sd_status_message(3), "FAT MOUNT ERROR");
    assert_eq!(sd_status_message(4), "CARD NOT FOUND");
    assert_eq!(sd_status_message(5), "CRC SETUP ERROR");
    assert_eq!(sd_status_message(6), "SPI ERROR");
    assert_eq!(sd_status_message(7), "CMD TIMEOUT");
    assert_eq!(sd_status_message(8), "ACMD TIMEOUT");
    for code in 9..=13 {
        assert_eq!(sd_status_message(code), "SD INIT ERROR");
    }
    assert_eq!(sd_status_message(14), "SD READ ERROR");
    assert_eq!(sd_status_message(15), "FAT FORMAT ERROR");
    assert_eq!(sd_status_message(16), "NO VOLUME 0");
    assert_eq!(sd_status_message(17), "FAT MOUNT ERROR");
    assert_eq!(sd_status_message(0), "SD UNKNOWN ERROR");
    assert_eq!(sd_status_message(18), "SD UNKNOWN ERROR");
    assert_eq!(sd_status_message(255), "SD UNKNOWN ERROR");
}

#[test]
fn bmp_names_are_listed() {
    assert!(is_listed_bmp("PHOTO.BMP"));
    assert!(is_listed_bmp("A.BMP"));
    assert!(is_listed_bmp(".BMP"));
    assert!(!is_listed_bmp("PHOTO.bmp"));
    assert!(!is_listed_bmp("PHOTO.JPG"));
    assert!(!is_listed_bmp("BMP"));
    assert!(!is_listed_bmp(""));
    assert!(!is_listed_bmp("._PHOTO.BMP"));
    assert!(!is_listed_bmp("MY_PIC.BMP"));
    assert!(!is_listed_bmp("PHOTO.BMP_"));
}

fn none() -> LoopActions {
    LoopActions { next_image: false, show_image: false, back_to_menu: false }
}

#[test]
fn buttons_act_on_press_not_while_held() {
    let mut c = Controls::new();
    // Both buttons start as if held: holding them at start-up does nothing.
    assert_eq!(c.step(true, true), none());
    assert_eq!(c.step(false, false), none());
    assert_eq!(c.step(true, false), LoopActions { next_image: true, ..none() });
    assert_eq!(c.step(true, false), none());
    assert_eq!(c.state, AppState::Menu);
}

#[test]
fn select_shows_and_returns() {
    let mut c = Controls::new();
    c.step(false, false);
    assert_eq!(c.step(false, true), LoopActions { show_image: true, ..none() });
    assert_eq!(c.state, AppState::ShowingImage);
    // Next does nothing while an image is shown.
    assert_eq!(c.step(true, false), none());
    assert_eq!(c.step(false, true), LoopActions { back_to_menu: true, ..none() });
    assert_eq!(c.state, AppState::Menu);
}

#[test]
fn next_and_select_together_on_the_menu() {
    let mut c = Controls::new();
    c.step(false, false);
    assert_eq!(
        c.step(true, true),
        LoopActions { next_image: true, show_image: true, back_to_menu: false }
    );
    assert_eq!(c.state, AppState::ShowingImage);
}

#[test]
fn status_screen_lines() {
    let elements = status_screen(4);
    assert_eq!(elements.len(), 3);
    let expected = [("SD STATUS", 45, 70), ("CARD NOT FOUND", 20, 105), ("RECHECK CARD", 35, 140)];
    for (e, (t, ex, ey)) in elements.iter().zip(expected.iter()) {
        assert!(matches!(
            e,
            ScreenElement::Text { text, x, y, font: Font::Bold, align: TextAlign::Left }
                if text == t && x == ex && y == ey
        ));
    }
}

#[test]
fn status_screen_draws_text_in_three_bands() {
    let fb = draw_status_screen(16);
    let b = fb.buffer();
    let band = |top: usize, bottom: usize| b[top * 25..bottom * 25].iter().any(|&v| v != 0);
    assert!(band(55, 72));
    assert!(band(90, 107));
    assert!(band(125, 142));
    assert!(!band(0, 50));
    assert!(!band(150, 200));
}
