//! Why an Android boot image is refused.

use vstd::prelude::*;

verus! {

/// A reason for refusing an Android boot image.
#[derive(Clone, Copy, Debug, PartialEq, Eq, Structural)]
pub enum BootError {
    /// The header version is not 0.
    NotVersion0,
    /// A version 0 image holds more than a kernel.
    NeedsVersion2,
    /// The header version is not 2.
    NotVersion2,
    /// The compressed kernel cannot be unpacked.
    DecompressKernel,
    /// The kernel does not fit the memory reserved for it.
    WriteKernel,
    /// The kernel is not an EFI application.
    NotEfiApp,
    /// The firmware did not load the kernel.
    LoadKernel,
    /// The ramdisk does not fit the memory reserved for it.
    WriteRamdisk,
    /// The device tree does not fit the memory reserved for it.
    WriteFdt,
    /// The firmware did not take the device tree.
    InstallFdt,
    /// There is no memory for the command line.
    AllocCommandLine,
    /// The firmware did not hand out the loaded image.
    OpenImage,
}

/// The text that tells the host what went wrong.
pub open spec fn message_of(error: BootError) -> Seq<char> {
    match error {
        BootError::NotVersion0 => "only version 0 supported"@,
        BootError::NeedsVersion2 => "use header version 2"@,
        BootError::NotVersion2 => "only version 2 supported"@,
        BootError::DecompressKernel => "failed to decompress kernel"@,
        BootError::WriteKernel => "failed to write kernel payload"@,
        BootError::NotEfiApp => "kernel payload is not an EFI application"@,
        BootError::LoadKernel => "failed to load kernel image"@,
        BootError::WriteRamdisk => "failed to write ramdisk payload"@,
        BootError::WriteFdt => "failed to write fdt"@,
        BootError::InstallFdt => "failed to install fdt in configuration table"@,
        BootError::AllocCommandLine => "failed to allocate memory for command line"@,
        BootError::OpenImage => "failed to load image"@,
    }
}

impl BootError {
    /// The text that tells the host what went wrong.
    pub fn message(&self) -> (text: &'static str)
        ensures
            text@ == message_of(*self),
    {
        match self {
            BootError::NotVersion0 => "only version 0 supported",
            BootError::NeedsVersion2 => "use header version 2",
            BootError::NotVersion2 => "only version 2 supported",
            BootError::DecompressKernel => "failed to decompress kernel",
            BootError::WriteKernel => "failed to write kernel payload",
            BootError::NotEfiApp => "kernel payload is not an EFI application",
            BootError::LoadKernel => "failed to load kernel image",
            BootError::WriteRamdisk => "failed to write ramdisk payload",
            BootError::WriteFdt => "failed to write fdt",
            BootError::InstallFdt => "failed to install fdt in configuration table",
            BootError::AllocCommandLine => "failed to allocate memory for command line",
            BootError::OpenImage => "failed to load image",
        }
    }
}

/// Each reason is told in its own words.
pub proof fn law_reasons_have_their_words(error: BootError)
    ensures
        error is NotVersion0 ==> message_of(error) == "only version 0 supported"@,
        error is NeedsVersion2 ==> message_of(error) == "use header version 2"@,
        error is NotVersion2 ==> message_of(error) == "only version 2 supported"@,
        error is DecompressKernel ==> message_of(error) == "failed to decompress kernel"@,
        error is WriteKernel ==> message_of(error) == "failed to write kernel payload"@,
        error is NotEfiApp ==> message_of(error) == "kernel payload is not an EFI application"@,
        error is LoadKernel ==> message_of(error) == "failed to load kernel image"@,
        error is WriteRamdisk ==> message_of(error) == "failed to write ramdisk payload"@,
        error is WriteFdt ==> message_of(error) == "failed to write fdt"@,
        error is InstallFdt ==> message_of(error)
            == "failed to install fdt in configuration table"@,
        error is AllocCommandLine ==> message_of(error)
            == "failed to allocate memory for command line"@,
        error is OpenImage ==> message_of(error) == "failed to load image"@,
{
}

} // verus!
