use vstd::prelude::*;

verus! {

/// Commands understood by the device. Each one is sent as the command byte
/// of a packet.
#[derive(Clone, Copy, Debug, PartialEq, Eq, Structural)]
pub enum Command {
    Alarm,
    Animation,
    SetVolume,
    GetVolume,
    SetPlayStatus,
    SetDateTime,
    LightArrowSwitch,
    SetBoxMode,
    SetBrightness,
    DrawingEncodeMoviePlay,
    DrawingCtrlMoviePlay,
    LedUpdateFontInfo,
    LedWordCmd,
    ExtendedCommand,
}

impl Command {
    /// The command byte that identifies this command on the wire.
    pub open spec fn spec_value(&self) -> u8 {
        match *self {
            Command::SetVolume => 0x08,
            Command::GetVolume => 0x09,
            Command::SetPlayStatus => 0x0a,
            Command::SetDateTime => 0x18,
            Command::LightArrowSwitch => 0x23,
            Command::Alarm => 0x43,
            Command::SetBoxMode => 0x45,
            Command::DrawingEncodeMoviePlay => 0x6c,
            Command::DrawingCtrlMoviePlay => 0x6e,
            Command::SetBrightness => 0x74,
            Command::LedUpdateFontInfo => 0x7c,
            Command::LedWordCmd => 0x86,
            Command::Animation => 0x8b,
            Command::ExtendedCommand => 0xbd,
        }
    }

    /// Returns the command byte of this command.
    #[verifier::when_used_as_spec(spec_value)]
    pub fn value(&self) -> (v: u8)
        ensures
            v == self.spec_value(),
    {
        match *self {
            Command::SetVolume => 0x08,
            Command::GetVolume => 0x09,
            Command::SetPlayStatus => 0x0a,
            Command::SetDateTime => 0x18,
            Command::LightArrowSwitch => 0x23,
            Command::Alarm => 0x43,
            Command::SetBoxMode => 0x45,
            Command::DrawingEncodeMoviePlay => 0x6c,
            Command::DrawingCtrlMoviePlay => 0x6e,
            Command::SetBrightness => 0x74,
            Command::LedUpdateFontInfo => 0x7c,
            Command::LedWordCmd => 0x86,
            Command::Animation => 0x8b,
            Command::ExtendedCommand => 0xbd,
        }
    }
}

/// Two different commands never share a command byte, so the byte alone
/// identifies the command.
pub proof fn lemma_command_value_injective(a: Command, b: Command)
    requires
        a.spec_value() == b.spec_value(),
    ensures
        a == b,
{
}

} // verus!
