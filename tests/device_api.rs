use sonoff_flasher::error::FlasherError;
use sonoff_flasher::hasher::{hex_digest, sha256_hex};
use sonoff_flasher::sonoff_api::{
    device_url, FlashAction, FlashEvent, FlashStage, OtaFlashRequest, SonoffRequestBody,
};

#[test]
fn sha256_of_known_inputs() {
    assert_eq!(
        sha256_hex(&b"abc".to_vec()),
        "ba7816bf8f01cfea414140de5dae2223b00361a396177a9cb410ff61f20015ad"
    );
    assert_eq!(
        sha256_hex(&Vec::new()),
        "e3b0c44298fc1c149afbf4c8996fb92427ae41e4649b934ca495991b7852b855"
    );
}

#[test]
fn hex_pads_each_byte() {
    assert_eq!(hex_digest(&vec![0x00, 0x0f, 0xa0, 0xff]), "000fa0ff");
}

#[test]
fn urls() {
    assert_eq!(
        device_url("192.168.1.9", "ota_flash"),
        "http://192.168.1.9:8081/zeroconf/ota_flash"
    );
    let req = OtaFlashRequest::for_server("10.0.0.2:8001", "abcd");
    assert_eq!(req.download_url, "http://10.0.0.2:8001/firmware.bin");
    assert_eq!(req.sha256sum, "abcd");
}

#[test]
fn request_bodies() {
    let e: SonoffRequestBody<u32> = SonoffRequestBody::empty();
    assert_eq!(e.device_id, "");
    assert_eq!(e.data, 0);
    let n = SonoffRequestBody::new("dev1", 7u8);
    assert_eq!(n.device_id, "dev1");
    assert_eq!(n.data, 7);
}

#[test]
fn flash_session_unlocks_first() {
    let (stage, action) = FlashStage::start();
    assert_eq!(action, FlashAction::RequestInfo);
    let (stage, action) = stage.step(FlashEvent::Info { ota_unlock: false });
    assert_eq!(action, FlashAction::RequestUnlock);
    let (stage, action) = stage.step(FlashEvent::Unlocked);
    assert_eq!(action, FlashAction::RequestInfo);
    let (stage, action) = stage.step(FlashEvent::Info { ota_unlock: true });
    assert_eq!(action, FlashAction::RequestFlash);
    let (stage, action) = stage.step(FlashEvent::Flashed);
    assert_eq!(action, FlashAction::Done);
    assert_eq!(stage, FlashStage::Finished);
}

#[test]
fn flash_session_fails_when_still_locked() {
    let (stage, _) = FlashStage::start();
    let (stage, action) = stage.step(FlashEvent::Info { ota_unlock: true });
    assert_eq!(action, FlashAction::RequestInfo);
    assert_eq!(stage, FlashStage::SecondInfo);
    let (stage, action) = stage.step(FlashEvent::Info { ota_unlock: false });
    assert_eq!(action, FlashAction::Fail);
    assert_eq!(stage, FlashStage::Finished);
    let (_, action) = FlashStage::Unlock.step(FlashEvent::Flashed);
    assert_eq!(action, FlashAction::Fail);
}

#[test]
fn error_message() {
    let e = FlasherError::new("Could not unlock ota mode");
    assert_eq!(e.message(), "Could not unlock ota mode");
    assert_eq!(e.0, "Could not unlock ota mode");
}
