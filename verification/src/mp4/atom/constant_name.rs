//! Box names, as the big-endian numbers their four characters spell.
use vstd::prelude::*;

verus! {

/// `ftyp`
pub const FTYP: u32 = 0x66747970;

/// `free`
pub const FREE: u32 = 0x66726565;

/// `mdat`
pub const MDAT: u32 = 0x6d646174;

/// `emsg`
pub const EMSG: u32 = 0x656d7367;

/// `moov`
pub const MOOV: u32 = 0x6d6f6f76;

/// `trak`
pub const TRAK: u32 = 0x7472616b;

/// `mdia`
pub const MDIA: u32 = 0x6d646961;

/// `minf`
pub const MINF: u32 = 0x6d696e66;

/// `stbl`
pub const STBL: u32 = 0x7374626c;

/// `dinf`
pub const DINF: u32 = 0x64696e66;

/// `edts`
pub const EDTS: u32 = 0x65647473;

/// `moof`
pub const MOOF: u32 = 0x6d6f6f66;

/// `traf`
pub const TRAF: u32 = 0x74726166;

/// `mvex`
pub const MVEX: u32 = 0x6d766578;

/// `udta`
pub const UDTA: u32 = 0x75647461;

/// `meta`
pub const META: u32 = 0x6d657461;

/// `ilst`
pub const ILST: u32 = 0x696c7374;

/// `mvhd`
pub const MVHD: u32 = 0x6d766864;

/// `tkhd`
pub const TKHD: u32 = 0x746b6864;

/// `mdhd`
pub const MDHD: u32 = 0x6d646864;

/// `hdlr`
pub const HDLR: u32 = 0x68646c72;

/// `vmhd`
pub const VMHD: u32 = 0x766d6864;

/// `smhd`
pub const SMHD: u32 = 0x736d6864;

/// `mdir`
pub const MDIR: u32 = 0x6d646972;

/// `stsd`
pub const STSD: u32 = 0x73747364;

/// `stts`
pub const STTS: u32 = 0x73747473;

/// `stsc`
pub const STSC: u32 = 0x73747363;

/// `stsz`
pub const STSZ: u32 = 0x7374737a;

/// `stss`
pub const STSS: u32 = 0x73747373;

/// `stco`
pub const STCO: u32 = 0x7374636f;

/// `co64`
pub const CO64: u32 = 0x636f3634;

/// `ctts`
pub const CTTS: u32 = 0x63747473;

/// `dref`
pub const DREF: u32 = 0x64726566;

/// `url `
pub const URL_: u32 = 0x75726c20;

/// `elst`
pub const ELST: u32 = 0x656c7374;

/// `mfhd`
pub const MFHD: u32 = 0x6d666864;

/// `tfhd`
pub const TFHD: u32 = 0x74666864;

/// `tfdt`
pub const TFDT: u32 = 0x74666474;

/// `trun`
pub const TRUN: u32 = 0x7472756e;

/// `trex`
pub const TREX: u32 = 0x74726578;

/// `mehd`
pub const MEHD: u32 = 0x6d656864;

/// `data`
pub const DATA: u32 = 0x64617461;

/// `©nam`
pub const NAME: u32 = 0xa96e616d;

/// `©day`
pub const DAY: u32 = 0xa9646179;

/// `covr`
pub const COVR: u32 = 0x636f7672;

/// `desc`
pub const DESC: u32 = 0x64657363;

/// `avc1`
pub const AVC1: u32 = 0x61766331;

/// `hev1`
pub const HEV1: u32 = 0x68657631;

/// `mp4a`
pub const MP4A: u32 = 0x6d703461;

/// `tx3g`
pub const TX3G: u32 = 0x74783367;

/// `avcC`
pub const AVCC: u32 = 0x61766343;

/// `hvcC`
pub const HVCC: u32 = 0x68766343;

/// `esds`
pub const ESDS: u32 = 0x65736473;

/// `vpcC`
pub const VPCC: u32 = 0x76706343;

/// `vp09`
pub const VP09: u32 = 0x76703039;

/// `wide`
pub const WIDE: u32 = 0x77696465;

/// `wave`
pub const WAVE: u32 = 0x77617665;

} // verus!
