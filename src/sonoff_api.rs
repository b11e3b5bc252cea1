//! The device's update API: its request and response bodies, the addresses
//! of its endpoints, and the order in which the flashing requests are made.
use vstd::prelude::*;

verus! {

/// The envelope of every request to the device.
#[derive(Clone, Debug)]
pub struct SonoffRequestBody<D> {
    pub device_id: String,
    pub data: D,
}

/// The envelope of every response of the device.
#[derive(Clone, Debug)]
pub struct SonoffResponse<D> {
    pub data: D,
}

/// The payload of the flash request: where to download the firmware and
/// its SHA-256 checksum.
#[derive(Clone, Debug)]
pub struct OtaFlashRequest {
    pub download_url: String,
    pub sha256sum: String,
}

/// The payload of the device's info response.
#[derive(Clone, Debug)]
pub struct InfoResponse {
    pub ssid: String,
    pub ota_unlock: bool,
    pub fw_version: String,
}

impl<D: Default> SonoffRequestBody<D> {
    /// A request with an empty device id and the default payload.
    pub fn empty() -> (r: Self)
        ensures
            r.device_id@ == Seq::<char>::empty(),
    {
        SonoffRequestBody { device_id: String::new(), data: D::default() }
    }
}

impl<D> SonoffRequestBody<D> {
    /// A request for `device_id` carrying `data`.
    pub fn new(device_id: &str, data: D) -> (r: Self)
        ensures
            r.device_id@ == device_id@,
            r.data == data,
    {
        SonoffRequestBody { device_id: device_id.to_owned(), data }
    }
}

/// `http://<host>:8081/zeroconf/<endpoint>`.
pub open spec fn device_url_text(host: Seq<char>, endpoint: Seq<char>) -> Seq<char> {
    "http://"@ + host + ":8081/zeroconf/"@ + endpoint
}

/// The address of one endpoint of the device's update API.
pub fn device_url(host: &str, endpoint: &str) -> (r: String)
    ensures
        r@ == device_url_text(host@, endpoint@),
{
    let mut r = "http://".to_owned();
    r.append(host);
    r.append(":8081/zeroconf/");
    r.append(endpoint);
    r
}

/// `http://<own_bind>/firmware.bin`.
pub open spec fn firmware_url_text(own_bind: Seq<char>) -> Seq<char> {
    "http://"@ + own_bind + "/firmware.bin"@
}

impl OtaFlashRequest {
    /// The flash payload for firmware served at `own_bind` with checksum
    /// `firmware_sha256`.
    pub fn for_server(own_bind: &str, firmware_sha256: &str) -> (r: Self)
        ensures
            r.download_url@ == firmware_url_text(own_bind@),
            r.sha256sum@ == firmware_sha256@,
    {
        let mut url = "http://".to_owned();
        url.append(own_bind);
        url.append("/firmware.bin");
        OtaFlashRequest { download_url: url, sha256sum: firmware_sha256.to_owned() }
    }
}

/// Where a flashing session stands: which answer it waits for.
#[derive(Clone, Copy, Debug, PartialEq, Eq, Structural)]
pub enum FlashStage {
    /// Waiting for the first info response.
    FirstInfo,
    /// Waiting for the unlock request to complete.
    Unlock,
    /// Waiting for the info response after unlocking.
    SecondInfo,
    /// Waiting for the flash request to complete.
    Flash,
    /// The session has ended.
    Finished,
}

/// What happened since the last step of a flashing session.
#[derive(Clone, Copy, Debug, PartialEq, Eq, Structural)]
pub enum FlashEvent {
    /// An info response arrived, saying whether updates are unlocked.
    Info { ota_unlock: bool },
    /// The unlock request completed.
    Unlocked,
    /// The flash request completed, or failed in a way that is not an error
    /// (the device may restart before it answers).
    Flashed,
}

/// What the driver of a flashing session does next.
#[derive(Clone, Copy, Debug, PartialEq, Eq, Structural)]
pub enum FlashAction {
    RequestInfo,
    RequestUnlock,
    RequestFlash,
    /// The firmware was handed to the device.
    Done,
    /// Updates stayed locked after the unlock request, or an answer came that
    /// the session was not waiting for.
    Fail,
}

/// The step a flashing session takes on an event: ask for the info; unlock if
/// updates are locked; ask for the info again; flash only if updates are
/// unlocked by then.
pub open spec fn flash_transition(stage: FlashStage, event: FlashEvent) -> (FlashStage, FlashAction) {
    match (stage, event) {
        (FlashStage::FirstInfo, FlashEvent::Info { ota_unlock }) => if ota_unlock {
            (FlashStage::SecondInfo, FlashAction::RequestInfo)
        } else {
            (FlashStage::Unlock, FlashAction::RequestUnlock)
        },
        (FlashStage::Unlock, FlashEvent::Unlocked) => (FlashStage::SecondInfo, FlashAction::RequestInfo),
        (FlashStage::SecondInfo, FlashEvent::Info { ota_unlock }) => if ota_unlock {
            (FlashStage::Flash, FlashAction::RequestFlash)
        } else {
            (FlashStage::Finished, FlashAction::Fail)
        },
        (FlashStage::Flash, FlashEvent::Flashed) => (FlashStage::Finished, FlashAction::Done),
        _ => (FlashStage::Finished, FlashAction::Fail),
    }
}

impl FlashStage {
    /// A new session: it starts by asking for the device's info.
    pub fn start() -> (r: (FlashStage, FlashAction))
        ensures
            r == (FlashStage::FirstInfo, FlashAction::RequestInfo),
    {
        (FlashStage::FirstInfo, FlashAction::RequestInfo)
    }

    /// The next stage and action after `event`.
    pub fn step(self, event: FlashEvent) -> (r: (FlashStage, FlashAction))
        ensures
            r == flash_transition(self, event),
    {
        match (self, event) {
            (FlashStage::FirstInfo, FlashEvent::Info { ota_unlock }) => if ota_unlock {
                (FlashStage::SecondInfo, FlashAction::RequestInfo)
            } else {
                (FlashStage::Unlock, FlashAction::RequestUnlock)
            },
            (FlashStage::Unlock, FlashEvent::Unlocked) => (FlashStage::SecondInfo, FlashAction::RequestInfo),
            (FlashStage::SecondInfo, FlashEvent::Info { ota_unlock }) => if ota_unlock {
                (FlashStage::Flash, FlashAction::RequestFlash)
            } else {
                (FlashStage::Finished, FlashAction::Fail)
            },
            (FlashStage::Flash, FlashEvent::Flashed) => (FlashStage::Finished, FlashAction::Done),
            _ => (FlashStage::Finished, FlashAction::Fail),
        }
    }
}

/// The flash request is made only right after an info response that reported
/// updates unlocked, and only once the session has been through its second
/// info request.
pub proof fn lemma_flash_requested_only_when_unlocked(stage: FlashStage, event: FlashEvent)
    ensures
        flash_transition(stage, event).1 == FlashAction::RequestFlash ==> stage
            == FlashStage::SecondInfo && event == (FlashEvent::Info { ota_unlock: true }),
        flash_transition(stage, event).1 == FlashAction::Done ==> stage == FlashStage::Flash,
{
}

} // verus!
