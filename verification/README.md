# fastboot

A fastboot device as an EFI application, with its logic verified in Verus. It lets a host download
and boot kernels over USB: PE32+ (EFI) images for ARM64 and Android boot images of header versions
0 and 2.

## Layout

- `src/` is the verified library. It computes on bytes and text and does no I/O.
  - `request`, `response`, `session`: the commands of a host and what they are answered
  - `usb`, `download`, `buffer`: reports of the controller, and payloads that come in transfers
  - `boot`, `history`, `error`: the steps of booting a payload, the course that they take, and the
    reasons for giving up
  - `peimage`, `abootimg`, `gzip`: the formats of a payload
  - `serial`, `ucs2`, `text`, `bytes`: the serial number, text and integers
- `app/` drives the library: memory, USB transfers and the services of the firmware. The
  drivers differ from board to board: a board implements `Board` and calls `fastboot_main` from its
  entry point.
- `tests/` holds the library's tests.

## What is trusted

Three outside functions are called through wrappers whose contracts are not proved:
`miniz_oxide::inflate::core::decompress` (in `gzip`), `uefi::CStr16::from_str_with_buf` (in `ucs2`)
and `core::str::from_utf8` (in `text`). What each contract claims stands above its wrapper.

A function that needs its input to hold every field it looks at says so in `requires`, and another
function tests it (`pe_subsystem_in_bounds`, `gzip_parts_in_bounds`, `bootimg_v0_in_bounds`,
`bootimg_v2_in_bounds`, `kernel_parts_in_bounds`, `Extent::fits`, `header_can_be_read`,
`part_can_be_placed`, `boot_can_advance`, `card_parts_in_bounds`, `Download::takes`).
