//! What both ends of a session agree on, and what a protocol asks for.
use crate::anytls::padding::PaddingFactory;
use vstd::prelude::*;

verus! {

/// What a session knows of its peer.
#[derive(Clone, Debug)]
pub struct State {
    pub padding: PaddingFactory,
    pub peer_version: u8,
    pub received_settings_from_client: bool,
}

impl State {
    pub fn new(padding: PaddingFactory) -> (state: State)
        ensures
            state == (State { padding, peer_version: 0, received_settings_from_client: false }),
    {
        State { padding, peer_version: 0, received_settings_from_client: false }
    }

    pub fn padding(&self) -> (padding: &PaddingFactory)
        ensures
            *padding == self.padding,
    {
        &self.padding
    }

    pub fn set_padding(&mut self, padding: PaddingFactory)
        ensures
            *final(self) == (State { padding, ..*old(self) }),
    {
        self.padding = padding;
    }

    pub fn peer_version(&self) -> (version: u8)
        ensures
            version == self.peer_version,
    {
        self.peer_version
    }

    pub fn set_peer_version(&mut self, version: u8)
        ensures
            *final(self) == (State { peer_version: version, ..*old(self) }),
    {
        self.peer_version = version;
    }

    pub fn received_settings_from_client(&self) -> (received: bool)
        ensures
            received == self.received_settings_from_client,
    {
        self.received_settings_from_client
    }

    pub fn mark_received_settings_from_client(&mut self)
        ensures
            *final(self) == (State { received_settings_from_client: true, ..*old(self) }),
    {
        self.received_settings_from_client = true;
    }
}

/// The scheme that new sessions begin with.
#[derive(Clone, Debug)]
pub struct DefaultPaddingFactory {
    pub current: PaddingFactory,
}

impl DefaultPaddingFactory {
    /// The scheme that is used where no other is known.
    pub fn new() -> (holder: DefaultPaddingFactory)
        ensures
            holder.current.is_of(
                crate::text::utf8(crate::anytls::padding::default_scheme()),
            ),
    {
        DefaultPaddingFactory { current: PaddingFactory::default() }
    }

    pub fn load(&self) -> (padding: &PaddingFactory)
        ensures
            *padding == self.current,
    {
        &self.current
    }

    /// Takes over a scheme, where it is one.
    pub fn update(&mut self, raw_scheme: &[u8]) -> (updated: bool)
        ensures
            updated == (crate::anytls::padding::stop_of(
                crate::anytls::padding::scheme_of(raw_scheme@),
            ) is Some),
            updated ==> final(self).current.is_of(raw_scheme@),
            !updated ==> *final(self) == *old(self),
    {
        match PaddingFactory::new(raw_scheme) {
            Some(factory) => {
                self.current = factory;
                true
            },
            None => false,
        }
    }
}

/// A frame of a session.
#[derive(Clone, Debug, PartialEq, Eq)]
pub struct Frame {
    pub command: u8,
    pub sid: u32,
    pub data: Vec<u8>,
}

/// What a protocol asks the session to do.
#[derive(Clone, Debug)]
pub enum ProtocolAction {
    SendFrame(Frame),
    SendFrameSync(Frame),
    PushStreamData { sid: u32, data: Vec<u8> },
    EnsureIncomingStream { sid: u32 },
    CloseLocalStream { sid: u32 },
    CloseRemoteStream { sid: u32, message: String },
    CancelSynAckTimeout { sid: u32 },
    ArmSynAckTimeout { sid: u32, timeout_millis: u64 },
    ReleaseWriteBuffering,
    AlertAndFail { message: String },
}

} // verus!
