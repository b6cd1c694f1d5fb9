//! The fixed vocabularies an argument may name: colorspaces, gravity,
//! compression, resize filters, alpha handling, resolution units, color
//! profiles and image formats.  Names are matched without regard to
//! ASCII case.

use vstd::prelude::*;
use crate::error::{spec_lit, push_lit};
use crate::text::spec_lower;

verus! {

/// Error for a alpha channel option outside the vocabulary.
#[derive(Debug, Clone, PartialEq, Eq)]
pub struct UnknownAlphaChannelOption(pub Vec<u8>);

#[derive(Debug, Clone, Copy, PartialEq, Eq, Structural)]
pub enum AlphaChannel {
    Undefined,
    Activate,
    Associate,
    Background,
    Copy,
    Deactivate,
    Discrete,
    Disassociate,
    Extract,
    Off,
    On,
    Opaque,
    Remove,
    SetAlpha,
    Shape,
    Transparent,
}

pub open spec fn spec_alphachannel_from(s: Seq<u8>) -> Option<AlphaChannel> {
    let l = spec_lower(s);
    if l == spec_lit("undefined") {
        Some(AlphaChannel::Undefined)
    } else if l == spec_lit("activate") {
        Some(AlphaChannel::Activate)
    } else if l == spec_lit("associate") {
        Some(AlphaChannel::Associate)
    } else if l == spec_lit("background") {
        Some(AlphaChannel::Background)
    } else if l == spec_lit("copy") {
        Some(AlphaChannel::Copy)
    } else if l == spec_lit("deactivate") {
        Some(AlphaChannel::Deactivate)
    } else if l == spec_lit("discrete") {
        Some(AlphaChannel::Discrete)
    } else if l == spec_lit("disassociate") {
        Some(AlphaChannel::Disassociate)
    } else if l == spec_lit("extract") {
        Some(AlphaChannel::Extract)
    } else if l == spec_lit("off") {
        Some(AlphaChannel::Off)
    } else if l == spec_lit("on") {
        Some(AlphaChannel::On)
    } else if l == spec_lit("opaque") {
        Some(AlphaChannel::Opaque)
    } else if l == spec_lit("remove") {
        Some(AlphaChannel::Remove)
    } else if l == spec_lit("set") {
        Some(AlphaChannel::SetAlpha)
    } else if l == spec_lit("shape") {
        Some(AlphaChannel::Shape)
    } else if l == spec_lit("transparent") {
        Some(AlphaChannel::Transparent)
    } else {
        None
    }
}

impl AlphaChannel {
    /// Reads a case-insensitive vocabulary name.
    pub fn from_str(input: &[u8]) -> (r: Result<AlphaChannel, UnknownAlphaChannelOption>)
        ensures
            match r {
                Ok(v) => spec_alphachannel_from(input@) == Some(v),
                Err(e) => spec_alphachannel_from(input@) is None && e.0@ == input@,
            },
    {
        let l = crate::text::to_ascii_lower(input);
        let mut w: Vec<u8> = Vec::new();
        push_lit(&mut w, "undefined");
        if crate::text::bytes_eq(l.as_slice(), w.as_slice()) {
            return Ok(AlphaChannel::Undefined);
        }
        let mut w: Vec<u8> = Vec::new();
        push_lit(&mut w, "activate");
        if crate::text::bytes_eq(l.as_slice(), w.as_slice()) {
            return Ok(AlphaChannel::Activate);
        }
        let mut w: Vec<u8> = Vec::new();
        push_lit(&mut w, "associate");
        if crate::text::bytes_eq(l.as_slice(), w.as_slice()) {
            return Ok(AlphaChannel::Associate);
        }
        let mut w: Vec<u8> = Vec::new();
        push_lit(&mut w, "background");
        if crate::text::bytes_eq(l.as_slice(), w.as_slice()) {
            return Ok(AlphaChannel::Background);
        }
        let mut w: Vec<u8> = Vec::new();
        push_lit(&mut w, "copy");
        if crate::text::bytes_eq(l.as_slice(), w.as_slice()) {
            return Ok(AlphaChannel::Copy);
        }
        let mut w: Vec<u8> = Vec::new();
        push_lit(&mut w, "deactivate");
        if crate::text::bytes_eq(l.as_slice(), w.as_slice()) {
            return Ok(AlphaChannel::Deactivate);
        }
        let mut w: Vec<u8> = Vec::new();
        push_lit(&mut w, "discrete");
        if crate::text::bytes_eq(l.as_slice(), w.as_slice()) {
            return Ok(AlphaChannel::Discrete);
        }
        let mut w: Vec<u8> = Vec::new();
        push_lit(&mut w, "disassociate");
        if crate::text::bytes_eq(l.as_slice(), w.as_slice()) {
            return Ok(AlphaChannel::Disassociate);
        }
        let mut w: Vec<u8> = Vec::new();
        push_lit(&mut w, "extract");
        if crate::text::bytes_eq(l.as_slice(), w.as_slice()) {
            return Ok(AlphaChannel::Extract);
        }
        let mut w: Vec<u8> = Vec::new();
        push_lit(&mut w, "off");
        if crate::text::bytes_eq(l.as_slice(), w.as_slice()) {
            return Ok(AlphaChannel::Off);
        }
        let mut w: Vec<u8> = Vec::new();
        push_lit(&mut w, "on");
        if crate::text::bytes_eq(l.as_slice(), w.as_slice()) {
            return Ok(AlphaChannel::On);
        }
        let mut w: Vec<u8> = Vec::new();
        push_lit(&mut w, "opaque");
        if crate::text::bytes_eq(l.as_slice(), w.as_slice()) {
            return Ok(AlphaChannel::Opaque);
        }
        let mut w: Vec<u8> = Vec::new();
        push_lit(&mut w, "remove");
        if crate::text::bytes_eq(l.as_slice(), w.as_slice()) {
            return Ok(AlphaChannel::Remove);
        }
        let mut w: Vec<u8> = Vec::new();
        push_lit(&mut w, "set");
        if crate::text::bytes_eq(l.as_slice(), w.as_slice()) {
            return Ok(AlphaChannel::SetAlpha);
        }
        let mut w: Vec<u8> = Vec::new();
        push_lit(&mut w, "shape");
        if crate::text::bytes_eq(l.as_slice(), w.as_slice()) {
            return Ok(AlphaChannel::Shape);
        }
        let mut w: Vec<u8> = Vec::new();
        push_lit(&mut w, "transparent");
        if crate::text::bytes_eq(l.as_slice(), w.as_slice()) {
            return Ok(AlphaChannel::Transparent);
        }
        Err(UnknownAlphaChannelOption(crate::text::copy_bytes(input)))
    }
}

/// Error for a colorspace outside the vocabulary.
#[derive(Debug, Clone, PartialEq, Eq)]
pub struct UnknownColorspace(pub Vec<u8>);

#[derive(Debug, Clone, Copy, PartialEq, Eq, Structural)]
pub enum Colorspace {
    Undefined,
    CMY,
    CMYK,
    GRAY,
    HCL,
    HCLp,
    HSB,
    HSI,
    HSL,
    HSV,
    HWB,
    Lab,
    LCH,
    LCHab,
    LCHuv,
    Log,
    LMS,
    Luv,
    OHTA,
    Rec601YCbCr,
    Rec709YCbCr,
    RGB,
    ScRGB,
    SRGB,
    Transparent,
    XyY,
    XYZ,
    YCbCr,
    YCC,
    YDbDr,
    YIQ,
    YPbPr,
    YUV,
    LinearGRAY,
}

pub open spec fn spec_colorspace_from(s: Seq<u8>) -> Option<Colorspace> {
    let l = spec_lower(s);
    if l == spec_lit("undefined") {
        Some(Colorspace::Undefined)
    } else if l == spec_lit("cmy") {
        Some(Colorspace::CMY)
    } else if l == spec_lit("cmyk") {
        Some(Colorspace::CMYK)
    } else if l == spec_lit("gray") {
        Some(Colorspace::GRAY)
    } else if l == spec_lit("hcl") {
        Some(Colorspace::HCL)
    } else if l == spec_lit("hclp") {
        Some(Colorspace::HCLp)
    } else if l == spec_lit("hsb") {
        Some(Colorspace::HSB)
    } else if l == spec_lit("hsi") {
        Some(Colorspace::HSI)
    } else if l == spec_lit("hsl") {
        Some(Colorspace::HSL)
    } else if l == spec_lit("hsv") {
        Some(Colorspace::HSV)
    } else if l == spec_lit("hwb") {
        Some(Colorspace::HWB)
    } else if l == spec_lit("lab") {
        Some(Colorspace::Lab)
    } else if l == spec_lit("lch") {
        Some(Colorspace::LCH)
    } else if l == spec_lit("lchab") {
        Some(Colorspace::LCHab)
    } else if l == spec_lit("lchuv") {
        Some(Colorspace::LCHuv)
    } else if l == spec_lit("log") {
        Some(Colorspace::Log)
    } else if l == spec_lit("lms") {
        Some(Colorspace::LMS)
    } else if l == spec_lit("luv") {
        Some(Colorspace::Luv)
    } else if l == spec_lit("ohta") {
        Some(Colorspace::OHTA)
    } else if l == spec_lit("rec601ycbcr") {
        Some(Colorspace::Rec601YCbCr)
    } else if l == spec_lit("rec709ycbcr") {
        Some(Colorspace::Rec709YCbCr)
    } else if l == spec_lit("rgb") {
        Some(Colorspace::RGB)
    } else if l == spec_lit("scrgb") {
        Some(Colorspace::ScRGB)
    } else if l == spec_lit("srgb") {
        Some(Colorspace::SRGB)
    } else if l == spec_lit("transparent") {
        Some(Colorspace::Transparent)
    } else if l == spec_lit("xyy") {
        Some(Colorspace::XyY)
    } else if l == spec_lit("xyz") {
        Some(Colorspace::XYZ)
    } else if l == spec_lit("ycbcr") {
        Some(Colorspace::YCbCr)
    } else if l == spec_lit("ycc") {
        Some(Colorspace::YCC)
    } else if l == spec_lit("ydbdr") {
        Some(Colorspace::YDbDr)
    } else if l == spec_lit("yiq") {
        Some(Colorspace::YIQ)
    } else if l == spec_lit("ypbpr") {
        Some(Colorspace::YPbPr)
    } else if l == spec_lit("yuv") {
        Some(Colorspace::YUV)
    } else if l == spec_lit("lineargray") {
        Some(Colorspace::LinearGRAY)
    } else {
        None
    }
}

impl Colorspace {
    /// Reads a case-insensitive vocabulary name.
    pub fn from_str(input: &[u8]) -> (r: Result<Colorspace, UnknownColorspace>)
        ensures
            match r {
                Ok(v) => spec_colorspace_from(input@) == Some(v),
                Err(e) => spec_colorspace_from(input@) is None && e.0@ == input@,
            },
    {
        let l = crate::text::to_ascii_lower(input);
        let mut w: Vec<u8> = Vec::new();
        push_lit(&mut w, "undefined");
        if crate::text::bytes_eq(l.as_slice(), w.as_slice()) {
            return Ok(Colorspace::Undefined);
        }
        let mut w: Vec<u8> = Vec::new();
        push_lit(&mut w, "cmy");
        if crate::text::bytes_eq(l.as_slice(), w.as_slice()) {
            return Ok(Colorspace::CMY);
        }
        let mut w: Vec<u8> = Vec::new();
        push_lit(&mut w, "cmyk");
        if crate::text::bytes_eq(l.as_slice(), w.as_slice()) {
            return Ok(Colorspace::CMYK);
        }
        let mut w: Vec<u8> = Vec::new();
        push_lit(&mut w, "gray");
        if crate::text::bytes_eq(l.as_slice(), w.as_slice()) {
            return Ok(Colorspace::GRAY);
        }
        let mut w: Vec<u8> = Vec::new();
        push_lit(&mut w, "hcl");
        if crate::text::bytes_eq(l.as_slice(), w.as_slice()) {
            return Ok(Colorspace::HCL);
        }
        let mut w: Vec<u8> = Vec::new();
        push_lit(&mut w, "hclp");
        if crate::text::bytes_eq(l.as_slice(), w.as_slice()) {
            return Ok(Colorspace::HCLp);
        }
        let mut w: Vec<u8> = Vec::new();
        push_lit(&mut w, "hsb");
        if crate::text::bytes_eq(l.as_slice(), w.as_slice()) {
            return Ok(Colorspace::HSB);
        }
        let mut w: Vec<u8> = Vec::new();
        push_lit(&mut w, "hsi");
        if crate::text::bytes_eq(l.as_slice(), w.as_slice()) {
            return Ok(Colorspace::HSI);
        }
        let mut w: Vec<u8> = Vec::new();
        push_lit(&mut w, "hsl");
        if crate::text::bytes_eq(l.as_slice(), w.as_slice()) {
            return Ok(Colorspace::HSL);
        }
        let mut w: Vec<u8> = Vec::new();
        push_lit(&mut w, "hsv");
        if crate::text::bytes_eq(l.as_slice(), w.as_slice()) {
            return Ok(Colorspace::HSV);
        }
        let mut w: Vec<u8> = Vec::new();
        push_lit(&mut w, "hwb");
        if crate::text::bytes_eq(l.as_slice(), w.as_slice()) {
            return Ok(Colorspace::HWB);
        }
        let mut w: Vec<u8> = Vec::new();
        push_lit(&mut w, "lab");
        if crate::text::bytes_eq(l.as_slice(), w.as_slice()) {
            return Ok(Colorspace::Lab);
        }
        let mut w: Vec<u8> = Vec::new();
        push_lit(&mut w, "lch");
        if crate::text::bytes_eq(l.as_slice(), w.as_slice()) {
            return Ok(Colorspace::LCH);
        }
        let mut w: Vec<u8> = Vec::new();
        push_lit(&mut w, "lchab");
        if crate::text::bytes_eq(l.as_slice(), w.as_slice()) {
            return Ok(Colorspace::LCHab);
        }
        let mut w: Vec<u8> = Vec::new();
        push_lit(&mut w, "lchuv");
        if crate::text::bytes_eq(l.as_slice(), w.as_slice()) {
            return Ok(Colorspace::LCHuv);
        }
        let mut w: Vec<u8> = Vec::new();
        push_lit(&mut w, "log");
        if crate::text::bytes_eq(l.as_slice(), w.as_slice()) {
            return Ok(Colorspace::Log);
        }
        let mut w: Vec<u8> = Vec::new();
        push_lit(&mut w, "lms");
        if crate::text::bytes_eq(l.as_slice(), w.as_slice()) {
            return Ok(Colorspace::LMS);
        }
        let mut w: Vec<u8> = Vec::new();
        push_lit(&mut w, "luv");
        if crate::text::bytes_eq(l.as_slice(), w.as_slice()) {
            return Ok(Colorspace::Luv);
        }
        let mut w: Vec<u8> = Vec::new();
        push_lit(&mut w, "ohta");
        if crate::text::bytes_eq(l.as_slice(), w.as_slice()) {
            return Ok(Colorspace::OHTA);
        }
        let mut w: Vec<u8> = Vec::new();
        push_lit(&mut w, "rec601ycbcr");
        if crate::text::bytes_eq(l.as_slice(), w.as_slice()) {
            return Ok(Colorspace::Rec601YCbCr);
        }
        let mut w: Vec<u8> = Vec::new();
        push_lit(&mut w, "rec709ycbcr");
        if crate::text::bytes_eq(l.as_slice(), w.as_slice()) {
            return Ok(Colorspace::Rec709YCbCr);
        }
        let mut w: Vec<u8> = Vec::new();
        push_lit(&mut w, "rgb");
        if crate::text::bytes_eq(l.as_slice(), w.as_slice()) {
            return Ok(Colorspace::RGB);
        }
        let mut w: Vec<u8> = Vec::new();
        push_lit(&mut w, "scrgb");
        if crate::text::bytes_eq(l.as_slice(), w.as_slice()) {
            return Ok(Colorspace::ScRGB);
        }
        let mut w: Vec<u8> = Vec::new();
        push_lit(&mut w, "srgb");
        if crate::text::bytes_eq(l.as_slice(), w.as_slice()) {
            return Ok(Colorspace::SRGB);
        }
        let mut w: Vec<u8> = Vec::new();
        push_lit(&mut w, "transparent");
        if crate::text::bytes_eq(l.as_slice(), w.as_slice()) {
            return Ok(Colorspace::Transparent);
        }
        let mut w: Vec<u8> = Vec::new();
        push_lit(&mut w, "xyy");
        if crate::text::bytes_eq(l.as_slice(), w.as_slice()) {
            return Ok(Colorspace::XyY);
        }
        let mut w: Vec<u8> = Vec::new();
        push_lit(&mut w, "xyz");
        if crate::text::bytes_eq(l.as_slice(), w.as_slice()) {
            return Ok(Colorspace::XYZ);
        }
        let mut w: Vec<u8> = Vec::new();
        push_lit(&mut w, "ycbcr");
        if crate::text::bytes_eq(l.as_slice(), w.as_slice()) {
            return Ok(Colorspace::YCbCr);
        }
        let mut w: Vec<u8> = Vec::new();
        push_lit(&mut w, "ycc");
        if crate::text::bytes_eq(l.as_slice(), w.as_slice()) {
            return Ok(Colorspace::YCC);
        }
        let mut w: Vec<u8> = Vec::new();
        push_lit(&mut w, "ydbdr");
        if crate::text::bytes_eq(l.as_slice(), w.as_slice()) {
            return Ok(Colorspace::YDbDr);
        }
        let mut w: Vec<u8> = Vec::new();
        push_lit(&mut w, "yiq");
        if crate::text::bytes_eq(l.as_slice(), w.as_slice()) {
            return Ok(Colorspace::YIQ);
        }
        let mut w: Vec<u8> = Vec::new();
        push_lit(&mut w, "ypbpr");
        if crate::text::bytes_eq(l.as_slice(), w.as_slice()) {
            return Ok(Colorspace::YPbPr);
        }
        let mut w: Vec<u8> = Vec::new();
        push_lit(&mut w, "yuv");
        if crate::text::bytes_eq(l.as_slice(), w.as_slice()) {
            return Ok(Colorspace::YUV);
        }
        let mut w: Vec<u8> = Vec::new();
        push_lit(&mut w, "lineargray");
        if crate::text::bytes_eq(l.as_slice(), w.as_slice()) {
            return Ok(Colorspace::LinearGRAY);
        }
        Err(UnknownColorspace(crate::text::copy_bytes(input)))
    }
}

/// Error for a compression type outside the vocabulary.
#[derive(Debug, Clone, PartialEq, Eq)]
pub struct UnknownCompression(pub Vec<u8>);

#[derive(Debug, Clone, Copy, PartialEq, Eq, Structural)]
pub enum CompressionType {
    Undefined,
    B44A,
    B44,
    BZip,
    DXT1,
    DXT3,
    DXT5,
    Fax,
    Group4,
    JBIG1,
    JBIG2,
    JPEG2000,
    JPEG,
    LosslessJPEG,
    LZMA,
    LZW,
    No,
    Piz,
    Pxr24,
    RLE,
    Zip,
    ZipS,
}

pub open spec fn spec_compressiontype_from(s: Seq<u8>) -> Option<CompressionType> {
    let l = spec_lower(s);
    if l == spec_lit("undefined") {
        Some(CompressionType::Undefined)
    } else if l == spec_lit("b44a") {
        Some(CompressionType::B44A)
    } else if l == spec_lit("b44") {
        Some(CompressionType::B44)
    } else if l == spec_lit("bzip") {
        Some(CompressionType::BZip)
    } else if l == spec_lit("dxt1") {
        Some(CompressionType::DXT1)
    } else if l == spec_lit("dxt3") {
        Some(CompressionType::DXT3)
    } else if l == spec_lit("dxt5") {
        Some(CompressionType::DXT5)
    } else if l == spec_lit("fax") {
        Some(CompressionType::Fax)
    } else if l == spec_lit("group4") {
        Some(CompressionType::Group4)
    } else if l == spec_lit("jbig1") {
        Some(CompressionType::JBIG1)
    } else if l == spec_lit("jbig2") {
        Some(CompressionType::JBIG2)
    } else if l == spec_lit("jpeg2000") {
        Some(CompressionType::JPEG2000)
    } else if l == spec_lit("jpeg") {
        Some(CompressionType::JPEG)
    } else if l == spec_lit("losslessjpeg") {
        Some(CompressionType::LosslessJPEG)
    } else if l == spec_lit("lzma") {
        Some(CompressionType::LZMA)
    } else if l == spec_lit("lzw") {
        Some(CompressionType::LZW)
    } else if l == spec_lit("no") {
        Some(CompressionType::No)
    } else if l == spec_lit("piz") {
        Some(CompressionType::Piz)
    } else if l == spec_lit("pxr24") {
        Some(CompressionType::Pxr24)
    } else if l == spec_lit("rle") {
        Some(CompressionType::RLE)
    } else if l == spec_lit("zip") {
        Some(CompressionType::Zip)
    } else if l == spec_lit("zips") {
        Some(CompressionType::ZipS)
    } else {
        None
    }
}

impl CompressionType {
    /// Reads a case-insensitive vocabulary name.
    pub fn from_str(input: &[u8]) -> (r: Result<CompressionType, UnknownCompression>)
        ensures
            match r {
                Ok(v) => spec_compressiontype_from(input@) == Some(v),
                Err(e) => spec_compressiontype_from(input@) is None && e.0@ == input@,
            },
    {
        let l = crate::text::to_ascii_lower(input);
        let mut w: Vec<u8> = Vec::new();
        push_lit(&mut w, "undefined");
        if crate::text::bytes_eq(l.as_slice(), w.as_slice()) {
            return Ok(CompressionType::Undefined);
        }
        let mut w: Vec<u8> = Vec::new();
        push_lit(&mut w, "b44a");
        if crate::text::bytes_eq(l.as_slice(), w.as_slice()) {
            return Ok(CompressionType::B44A);
        }
        let mut w: Vec<u8> = Vec::new();
        push_lit(&mut w, "b44");
        if crate::text::bytes_eq(l.as_slice(), w.as_slice()) {
            return Ok(CompressionType::B44);
        }
        let mut w: Vec<u8> = Vec::new();
        push_lit(&mut w, "bzip");
        if crate::text::bytes_eq(l.as_slice(), w.as_slice()) {
            return Ok(CompressionType::BZip);
        }
        let mut w: Vec<u8> = Vec::new();
        push_lit(&mut w, "dxt1");
        if crate::text::bytes_eq(l.as_slice(), w.as_slice()) {
            return Ok(CompressionType::DXT1);
        }
        let mut w: Vec<u8> = Vec::new();
        push_lit(&mut w, "dxt3");
        if crate::text::bytes_eq(l.as_slice(), w.as_slice()) {
            return Ok(CompressionType::DXT3);
        }
        let mut w: Vec<u8> = Vec::new();
        push_lit(&mut w, "dxt5");
        if crate::text::bytes_eq(l.as_slice(), w.as_slice()) {
            return Ok(CompressionType::DXT5);
        }
        let mut w: Vec<u8> = Vec::new();
        push_lit(&mut w, "fax");
        if crate::text::bytes_eq(l.as_slice(), w.as_slice()) {
            return Ok(CompressionType::Fax);
        }
        let mut w: Vec<u8> = Vec::new();
        push_lit(&mut w, "group4");
        if crate::text::bytes_eq(l.as_slice(), w.as_slice()) {
            return Ok(CompressionType::Group4);
        }
        let mut w: Vec<u8> = Vec::new();
        push_lit(&mut w, "jbig1");
        if crate::text::bytes_eq(l.as_slice(), w.as_slice()) {
            return Ok(CompressionType::JBIG1);
        }
        let mut w: Vec<u8> = Vec::new();
        push_lit(&mut w, "jbig2");
        if crate::text::bytes_eq(l.as_slice(), w.as_slice()) {
            return Ok(CompressionType::JBIG2);
        }
        let mut w: Vec<u8> = Vec::new();
        push_lit(&mut w, "jpeg2000");
        if crate::text::bytes_eq(l.as_slice(), w.as_slice()) {
            return Ok(CompressionType::JPEG2000);
        }
        let mut w: Vec<u8> = Vec::new();
        push_lit(&mut w, "jpeg");
        if crate::text::bytes_eq(l.as_slice(), w.as_slice()) {
            return Ok(CompressionType::JPEG);
        }
        let mut w: Vec<u8> = Vec::new();
        push_lit(&mut w, "losslessjpeg");
        if crate::text::bytes_eq(l.as_slice(), w.as_slice()) {
            return Ok(CompressionType::LosslessJPEG);
        }
        let mut w: Vec<u8> = Vec::new();
        push_lit(&mut w, "lzma");
        if crate::text::bytes_eq(l.as_slice(), w.as_slice()) {
            return Ok(CompressionType::LZMA);
        }
        let mut w: Vec<u8> = Vec::new();
        push_lit(&mut w, "lzw");
        if crate::text::bytes_eq(l.as_slice(), w.as_slice()) {
            return Ok(CompressionType::LZW);
        }
        let mut w: Vec<u8> = Vec::new();
        push_lit(&mut w, "no");
        if crate::text::bytes_eq(l.as_slice(), w.as_slice()) {
            return Ok(CompressionType::No);
        }
        let mut w: Vec<u8> = Vec::new();
        push_lit(&mut w, "piz");
        if crate::text::bytes_eq(l.as_slice(), w.as_slice()) {
            return Ok(CompressionType::Piz);
        }
        let mut w: Vec<u8> = Vec::new();
        push_lit(&mut w, "pxr24");
        if crate::text::bytes_eq(l.as_slice(), w.as_slice()) {
            return Ok(CompressionType::Pxr24);
        }
        let mut w: Vec<u8> = Vec::new();
        push_lit(&mut w, "rle");
        if crate::text::bytes_eq(l.as_slice(), w.as_slice()) {
            return Ok(CompressionType::RLE);
        }
        let mut w: Vec<u8> = Vec::new();
        push_lit(&mut w, "zip");
        if crate::text::bytes_eq(l.as_slice(), w.as_slice()) {
            return Ok(CompressionType::Zip);
        }
        let mut w: Vec<u8> = Vec::new();
        push_lit(&mut w, "zips");
        if crate::text::bytes_eq(l.as_slice(), w.as_slice()) {
            return Ok(CompressionType::ZipS);
        }
        Err(UnknownCompression(crate::text::copy_bytes(input)))
    }
}

/// Error for a resize filter outside the vocabulary.
#[derive(Debug, Clone, PartialEq, Eq)]
pub struct UnknownFilter(pub Vec<u8>);

#[derive(Debug, Clone, Copy, PartialEq, Eq, Structural)]
pub enum ResizeFilter {
    Undefined,
    Point,
    Box,
    Triangle,
    Hermite,
    Hann,
    Hamming,
    Blackman,
    Gaussian,
    Quadratic,
    Cubic,
    Catrom,
    Mitchell,
    Jinc,
    Sinc,
    SincFast,
    Kaiser,
    Welch,
    Parzen,
    Bohman,
    Bartlett,
    Lagrange,
    Lanczos,
    LanczosSharp,
    Lanczos2,
    Lanczos2Sharp,
    Robidoux,
    RobidouxSharp,
    Cosine,
    Spline,
    LanczosRadius,
    CubicSpline,
    Sentinel,
}

pub open spec fn spec_resizefilter_from(s: Seq<u8>) -> Option<ResizeFilter> {
    let l = spec_lower(s);
    if l == spec_lit("undefined") {
        Some(ResizeFilter::Undefined)
    } else if l == spec_lit("point") {
        Some(ResizeFilter::Point)
    } else if l == spec_lit("box") {
        Some(ResizeFilter::Box)
    } else if l == spec_lit("triangle") {
        Some(ResizeFilter::Triangle)
    } else if l == spec_lit("hermite") {
        Some(ResizeFilter::Hermite)
    } else if l == spec_lit("hann") {
        Some(ResizeFilter::Hann)
    } else if l == spec_lit("hamming") {
        Some(ResizeFilter::Hamming)
    } else if l == spec_lit("blackman") {
        Some(ResizeFilter::Blackman)
    } else if l == spec_lit("gaussian") {
        Some(ResizeFilter::Gaussian)
    } else if l == spec_lit("quadratic") {
        Some(ResizeFilter::Quadratic)
    } else if l == spec_lit("cubic") {
        Some(ResizeFilter::Cubic)
    } else if l == spec_lit("catrom") {
        Some(ResizeFilter::Catrom)
    } else if l == spec_lit("mitchell") {
        Some(ResizeFilter::Mitchell)
    } else if l == spec_lit("jinc") {
        Some(ResizeFilter::Jinc)
    } else if l == spec_lit("sinc") {
        Some(ResizeFilter::Sinc)
    } else if l == spec_lit("sinc_fast") {
        Some(ResizeFilter::SincFast)
    } else if l == spec_lit("kaiser") {
        Some(ResizeFilter::Kaiser)
    } else if l == spec_lit("welch") {
        Some(ResizeFilter::Welch)
    } else if l == spec_lit("parzen") {
        Some(ResizeFilter::Parzen)
    } else if l == spec_lit("bohman") {
        Some(ResizeFilter::Bohman)
    } else if l == spec_lit("bartlett") {
        Some(ResizeFilter::Bartlett)
    } else if l == spec_lit("lagrange") {
        Some(ResizeFilter::Lagrange)
    } else if l == spec_lit("lanczos") {
        Some(ResizeFilter::Lanczos)
    } else if l == spec_lit("lanczos_sharp") {
        Some(ResizeFilter::LanczosSharp)
    } else if l == spec_lit("lanczos2") {
        Some(ResizeFilter::Lanczos2)
    } else if l == spec_lit("lanczos2_sharp") {
        Some(ResizeFilter::Lanczos2Sharp)
    } else if l == spec_lit("robidoux") {
        Some(ResizeFilter::Robidoux)
    } else if l == spec_lit("robidoux_sharp") {
        Some(ResizeFilter::RobidouxSharp)
    } else if l == spec_lit("cosine") {
        Some(ResizeFilter::Cosine)
    } else if l == spec_lit("spline") {
        Some(ResizeFilter::Spline)
    } else if l == spec_lit("lanczos_radius") {
        Some(ResizeFilter::LanczosRadius)
    } else if l == spec_lit("cubic_spline") {
        Some(ResizeFilter::CubicSpline)
    } else if l == spec_lit("sentinel") {
        Some(ResizeFilter::Sentinel)
    } else {
        None
    }
}

impl ResizeFilter {
    /// Reads a case-insensitive vocabulary name.
    pub fn from_str(input: &[u8]) -> (r: Result<ResizeFilter, UnknownFilter>)
        ensures
            match r {
                Ok(v) => spec_resizefilter_from(input@) == Some(v),
                Err(e) => spec_resizefilter_from(input@) is None && e.0@ == input@,
            },
    {
        let l = crate::text::to_ascii_lower(input);
        let mut w: Vec<u8> = Vec::new();
        push_lit(&mut w, "undefined");
        if crate::text::bytes_eq(l.as_slice(), w.as_slice()) {
            return Ok(ResizeFilter::Undefined);
        }
        let mut w: Vec<u8> = Vec::new();
        push_lit(&mut w, "point");
        if crate::text::bytes_eq(l.as_slice(), w.as_slice()) {
            return Ok(ResizeFilter::Point);
        }
        let mut w: Vec<u8> = Vec::new();
        push_lit(&mut w, "box");
        if crate::text::bytes_eq(l.as_slice(), w.as_slice()) {
            return Ok(ResizeFilter::Box);
        }
        let mut w: Vec<u8> = Vec::new();
        push_lit(&mut w, "triangle");
        if crate::text::bytes_eq(l.as_slice(), w.as_slice()) {
            return Ok(ResizeFilter::Triangle);
        }
        let mut w: Vec<u8> = Vec::new();
        push_lit(&mut w, "hermite");
        if crate::text::bytes_eq(l.as_slice(), w.as_slice()) {
            return Ok(ResizeFilter::Hermite);
        }
        let mut w: Vec<u8> = Vec::new();
        push_lit(&mut w, "hann");
        if crate::text::bytes_eq(l.as_slice(), w.as_slice()) {
            return Ok(ResizeFilter::Hann);
        }
        let mut w: Vec<u8> = Vec::new();
        push_lit(&mut w, "hamming");
        if crate::text::bytes_eq(l.as_slice(), w.as_slice()) {
            return Ok(ResizeFilter::Hamming);
        }
        let mut w: Vec<u8> = Vec::new();
        push_lit(&mut w, "blackman");
        if crate::text::bytes_eq(l.as_slice(), w.as_slice()) {
            return Ok(ResizeFilter::Blackman);
        }
        let mut w: Vec<u8> = Vec::new();
        push_lit(&mut w, "gaussian");
        if crate::text::bytes_eq(l.as_slice(), w.as_slice()) {
            return Ok(ResizeFilter::Gaussian);
        }
        let mut w: Vec<u8> = Vec::new();
        push_lit(&mut w, "quadratic");
        if crate::text::bytes_eq(l.as_slice(), w.as_slice()) {
            return Ok(ResizeFilter::Quadratic);
        }
        let mut w: Vec<u8> = Vec::new();
        push_lit(&mut w, "cubic");
        if crate::text::bytes_eq(l.as_slice(), w.as_slice()) {
            return Ok(ResizeFilter::Cubic);
        }
        let mut w: Vec<u8> = Vec::new();
        push_lit(&mut w, "catrom");
        if crate::text::bytes_eq(l.as_slice(), w.as_slice()) {
            return Ok(ResizeFilter::Catrom);
        }
        let mut w: Vec<u8> = Vec::new();
        push_lit(&mut w, "mitchell");
        if crate::text::bytes_eq(l.as_slice(), w.as_slice()) {
            return Ok(ResizeFilter::Mitchell);
        }
        let mut w: Vec<u8> = Vec::new();
        push_lit(&mut w, "jinc");
        if crate::text::bytes_eq(l.as_slice(), w.as_slice()) {
            return Ok(ResizeFilter::Jinc);
        }
        let mut w: Vec<u8> = Vec::new();
        push_lit(&mut w, "sinc");
        if crate::text::bytes_eq(l.as_slice(), w.as_slice()) {
            return Ok(ResizeFilter::Sinc);
        }
        let mut w: Vec<u8> = Vec::new();
        push_lit(&mut w, "sinc_fast");
        if crate::text::bytes_eq(l.as_slice(), w.as_slice()) {
            return Ok(ResizeFilter::SincFast);
        }
        let mut w: Vec<u8> = Vec::new();
        push_lit(&mut w, "kaiser");
        if crate::text::bytes_eq(l.as_slice(), w.as_slice()) {
            return Ok(ResizeFilter::Kaiser);
        }
        let mut w: Vec<u8> = Vec::new();
        push_lit(&mut w, "welch");
        if crate::text::bytes_eq(l.as_slice(), w.as_slice()) {
            return Ok(ResizeFilter::Welch);
        }
        let mut w: Vec<u8> = Vec::new();
        push_lit(&mut w, "parzen");
        if crate::text::bytes_eq(l.as_slice(), w.as_slice()) {
            return Ok(ResizeFilter::Parzen);
        }
        let mut w: Vec<u8> = Vec::new();
        push_lit(&mut w, "bohman");
        if crate::text::bytes_eq(l.as_slice(), w.as_slice()) {
            return Ok(ResizeFilter::Bohman);
        }
        let mut w: Vec<u8> = Vec::new();
        push_lit(&mut w, "bartlett");
        if crate::text::bytes_eq(l.as_slice(), w.as_slice()) {
            return Ok(ResizeFilter::Bartlett);
        }
        let mut w: Vec<u8> = Vec::new();
        push_lit(&mut w, "lagrange");
        if crate::text::bytes_eq(l.as_slice(), w.as_slice()) {
            return Ok(ResizeFilter::Lagrange);
        }
        let mut w: Vec<u8> = Vec::new();
        push_lit(&mut w, "lanczos");
        if crate::text::bytes_eq(l.as_slice(), w.as_slice()) {
            return Ok(ResizeFilter::Lanczos);
        }
        let mut w: Vec<u8> = Vec::new();
        push_lit(&mut w, "lanczos_sharp");
        if crate::text::bytes_eq(l.as_slice(), w.as_slice()) {
            return Ok(ResizeFilter::LanczosSharp);
        }
        let mut w: Vec<u8> = Vec::new();
        push_lit(&mut w, "lanczos2");
        if crate::text::bytes_eq(l.as_slice(), w.as_slice()) {
            return Ok(ResizeFilter::Lanczos2);
        }
        let mut w: Vec<u8> = Vec::new();
        push_lit(&mut w, "lanczos2_sharp");
        if crate::text::bytes_eq(l.as_slice(), w.as_slice()) {
            return Ok(ResizeFilter::Lanczos2Sharp);
        }
        let mut w: Vec<u8> = Vec::new();
        push_lit(&mut w, "robidoux");
        if crate::text::bytes_eq(l.as_slice(), w.as_slice()) {
            return Ok(ResizeFilter::Robidoux);
        }
        let mut w: Vec<u8> = Vec::new();
        push_lit(&mut w, "robidoux_sharp");
        if crate::text::bytes_eq(l.as_slice(), w.as_slice()) {
            return Ok(ResizeFilter::RobidouxSharp);
        }
        let mut w: Vec<u8> = Vec::new();
        push_lit(&mut w, "cosine");
        if crate::text::bytes_eq(l.as_slice(), w.as_slice()) {
            return Ok(ResizeFilter::Cosine);
        }
        let mut w: Vec<u8> = Vec::new();
        push_lit(&mut w, "spline");
        if crate::text::bytes_eq(l.as_slice(), w.as_slice()) {
            return Ok(ResizeFilter::Spline);
        }
        let mut w: Vec<u8> = Vec::new();
        push_lit(&mut w, "lanczos_radius");
        if crate::text::bytes_eq(l.as_slice(), w.as_slice()) {
            return Ok(ResizeFilter::LanczosRadius);
        }
        let mut w: Vec<u8> = Vec::new();
        push_lit(&mut w, "cubic_spline");
        if crate::text::bytes_eq(l.as_slice(), w.as_slice()) {
            return Ok(ResizeFilter::CubicSpline);
        }
        let mut w: Vec<u8> = Vec::new();
        push_lit(&mut w, "sentinel");
        if crate::text::bytes_eq(l.as_slice(), w.as_slice()) {
            return Ok(ResizeFilter::Sentinel);
        }
        Err(UnknownFilter(crate::text::copy_bytes(input)))
    }
}

/// Error for a gravity type outside the vocabulary.
#[derive(Debug, Clone, PartialEq, Eq)]
pub struct UnknownGravity(pub Vec<u8>);

#[derive(Debug, Clone, Copy, PartialEq, Eq, Structural)]
pub enum Gravity {
    Undefined,
    NorthWest,
    North,
    NorthEast,
    West,
    Center,
    East,
    SouthWest,
    South,
    SouthEast,
}

pub open spec fn spec_gravity_from(s: Seq<u8>) -> Option<Gravity> {
    let l = spec_lower(s);
    if l == spec_lit("undefined") {
        Some(Gravity::Undefined)
    } else if l == spec_lit("north_west") {
        Some(Gravity::NorthWest)
    } else if l == spec_lit("north") {
        Some(Gravity::North)
    } else if l == spec_lit("north_east") {
        Some(Gravity::NorthEast)
    } else if l == spec_lit("west") {
        Some(Gravity::West)
    } else if l == spec_lit("center") {
        Some(Gravity::Center)
    } else if l == spec_lit("east") {
        Some(Gravity::East)
    } else if l == spec_lit("south_west") {
        Some(Gravity::SouthWest)
    } else if l == spec_lit("south") {
        Some(Gravity::South)
    } else if l == spec_lit("south_east") {
        Some(Gravity::SouthEast)
    } else {
        None
    }
}

impl Gravity {
    /// Reads a case-insensitive vocabulary name.
    pub fn from_str(input: &[u8]) -> (r: Result<Gravity, UnknownGravity>)
        ensures
            match r {
                Ok(v) => spec_gravity_from(input@) == Some(v),
                Err(e) => spec_gravity_from(input@) is None && e.0@ == input@,
            },
    {
        let l = crate::text::to_ascii_lower(input);
        let mut w: Vec<u8> = Vec::new();
        push_lit(&mut w, "undefined");
        if crate::text::bytes_eq(l.as_slice(), w.as_slice()) {
            return Ok(Gravity::Undefined);
        }
        let mut w: Vec<u8> = Vec::new();
        push_lit(&mut w, "north_west");
        if crate::text::bytes_eq(l.as_slice(), w.as_slice()) {
            return Ok(Gravity::NorthWest);
        }
        let mut w: Vec<u8> = Vec::new();
        push_lit(&mut w, "north");
        if crate::text::bytes_eq(l.as_slice(), w.as_slice()) {
            return Ok(Gravity::North);
        }
        let mut w: Vec<u8> = Vec::new();
        push_lit(&mut w, "north_east");
        if crate::text::bytes_eq(l.as_slice(), w.as_slice()) {
            return Ok(Gravity::NorthEast);
        }
        let mut w: Vec<u8> = Vec::new();
        push_lit(&mut w, "west");
        if crate::text::bytes_eq(l.as_slice(), w.as_slice()) {
            return Ok(Gravity::West);
        }
        let mut w: Vec<u8> = Vec::new();
        push_lit(&mut w, "center");
        if crate::text::bytes_eq(l.as_slice(), w.as_slice()) {
            return Ok(Gravity::Center);
        }
        let mut w: Vec<u8> = Vec::new();
        push_lit(&mut w, "east");
        if crate::text::bytes_eq(l.as_slice(), w.as_slice()) {
            return Ok(Gravity::East);
        }
        let mut w: Vec<u8> = Vec::new();
        push_lit(&mut w, "south_west");
        if crate::text::bytes_eq(l.as_slice(), w.as_slice()) {
            return Ok(Gravity::SouthWest);
        }
        let mut w: Vec<u8> = Vec::new();
        push_lit(&mut w, "south");
        if crate::text::bytes_eq(l.as_slice(), w.as_slice()) {
            return Ok(Gravity::South);
        }
        let mut w: Vec<u8> = Vec::new();
        push_lit(&mut w, "south_east");
        if crate::text::bytes_eq(l.as_slice(), w.as_slice()) {
            return Ok(Gravity::SouthEast);
        }
        Err(UnknownGravity(crate::text::copy_bytes(input)))
    }
}

/// Error for a resolution unit outside the vocabulary.
#[derive(Debug, Clone, PartialEq, Eq)]
pub struct UnknownResolutionUnit(pub Vec<u8>);

#[derive(Debug, Clone, Copy, PartialEq, Eq, Structural)]
pub enum ResolutionUnit {
    Undefined,
    PixelsPerInch,
    PixelsPerCentimeter,
}

pub open spec fn spec_resolutionunit_from(s: Seq<u8>) -> Option<ResolutionUnit> {
    let l = spec_lower(s);
    if l == spec_lit("undefined") {
        Some(ResolutionUnit::Undefined)
    } else if l == spec_lit("dpi") {
        Some(ResolutionUnit::PixelsPerInch)
    } else if l == spec_lit("dpc") {
        Some(ResolutionUnit::PixelsPerCentimeter)
    } else {
        None
    }
}

impl ResolutionUnit {
    /// Reads a case-insensitive vocabulary name.
    pub fn from_str(input: &[u8]) -> (r: Result<ResolutionUnit, UnknownResolutionUnit>)
        ensures
            match r {
                Ok(v) => spec_resolutionunit_from(input@) == Some(v),
                Err(e) => spec_resolutionunit_from(input@) is None && e.0@ == input@,
            },
    {
        let l = crate::text::to_ascii_lower(input);
        let mut w: Vec<u8> = Vec::new();
        push_lit(&mut w, "undefined");
        if crate::text::bytes_eq(l.as_slice(), w.as_slice()) {
            return Ok(ResolutionUnit::Undefined);
        }
        let mut w: Vec<u8> = Vec::new();
        push_lit(&mut w, "dpi");
        if crate::text::bytes_eq(l.as_slice(), w.as_slice()) {
            return Ok(ResolutionUnit::PixelsPerInch);
        }
        let mut w: Vec<u8> = Vec::new();
        push_lit(&mut w, "dpc");
        if crate::text::bytes_eq(l.as_slice(), w.as_slice()) {
            return Ok(ResolutionUnit::PixelsPerCentimeter);
        }
        Err(UnknownResolutionUnit(crate::text::copy_bytes(input)))
    }
}

/// Error for a color profile outside the vocabulary.
#[derive(Debug, Clone, PartialEq, Eq)]
pub struct UnknownColorProfile(pub Vec<u8>);

#[derive(Debug, Clone, Copy, PartialEq, Eq, Structural)]
pub enum ColorProfile {
    SRGB,
    Fogra39,
}

pub open spec fn spec_colorprofile_from(s: Seq<u8>) -> Option<ColorProfile> {
    let l = spec_lower(s);
    if l == spec_lit("srgb") {
        Some(ColorProfile::SRGB)
    } else if l == spec_lit("fogra39") {
        Some(ColorProfile::Fogra39)
    } else {
        None
    }
}

impl ColorProfile {
    /// Reads a case-insensitive vocabulary name.
    pub fn from_str(input: &[u8]) -> (r: Result<ColorProfile, UnknownColorProfile>)
        ensures
            match r {
                Ok(v) => spec_colorprofile_from(input@) == Some(v),
                Err(e) => spec_colorprofile_from(input@) is None && e.0@ == input@,
            },
    {
        let l = crate::text::to_ascii_lower(input);
        let mut w: Vec<u8> = Vec::new();
        push_lit(&mut w, "srgb");
        if crate::text::bytes_eq(l.as_slice(), w.as_slice()) {
            return Ok(ColorProfile::SRGB);
        }
        let mut w: Vec<u8> = Vec::new();
        push_lit(&mut w, "fogra39");
        if crate::text::bytes_eq(l.as_slice(), w.as_slice()) {
            return Ok(ColorProfile::Fogra39);
        }
        Err(UnknownColorProfile(crate::text::copy_bytes(input)))
    }
}

/// Error for an image format outside the vocabulary.
#[derive(Debug, Clone, PartialEq, Eq)]
pub struct UnknownImageFormat(pub Vec<u8>);

#[derive(Debug, Clone, Copy, PartialEq, Eq, Structural)]
pub enum ImageFormat {
    Undefined,
    PNG,
    JPEG,
    TIFF,
    PDF,
    PS,
    SVG,
}

pub open spec fn spec_imageformat_from(s: Seq<u8>) -> Option<ImageFormat> {
    let l = spec_lower(s);
    if l == spec_lit("png") {
        Some(ImageFormat::PNG)
    } else if l == spec_lit("jpeg") || l == spec_lit("jpg") {
        Some(ImageFormat::JPEG)
    } else if l == spec_lit("tiff") || l == spec_lit("tif") {
        Some(ImageFormat::TIFF)
    } else if l == spec_lit("pdf") {
        Some(ImageFormat::PDF)
    } else if l == spec_lit("ps") {
        Some(ImageFormat::PS)
    } else if l == spec_lit("svg") {
        Some(ImageFormat::SVG)
    } else {
        None
    }
}

impl ImageFormat {
    /// Reads a format name; upper and lower spellings and the short
    /// JPG / TIF forms are accepted.
    pub fn from_str(input: &[u8]) -> (r: Result<ImageFormat, UnknownImageFormat>)
        ensures
            match r {
                Ok(v) => spec_imageformat_from(input@) == Some(v),
                Err(e) => spec_imageformat_from(input@) is None && e.0@ == input@,
            },
    {
        let l = crate::text::to_ascii_lower(input);
        let mut w: Vec<u8> = Vec::new();
        push_lit(&mut w, "png");
        if crate::text::bytes_eq(l.as_slice(), w.as_slice()) {
            return Ok(ImageFormat::PNG);
        }
        let mut w: Vec<u8> = Vec::new();
        push_lit(&mut w, "jpeg");
        if crate::text::bytes_eq(l.as_slice(), w.as_slice()) {
            return Ok(ImageFormat::JPEG);
        }
        let mut w: Vec<u8> = Vec::new();
        push_lit(&mut w, "jpg");
        if crate::text::bytes_eq(l.as_slice(), w.as_slice()) {
            return Ok(ImageFormat::JPEG);
        }
        let mut w: Vec<u8> = Vec::new();
        push_lit(&mut w, "tiff");
        if crate::text::bytes_eq(l.as_slice(), w.as_slice()) {
            return Ok(ImageFormat::TIFF);
        }
        let mut w: Vec<u8> = Vec::new();
        push_lit(&mut w, "tif");
        if crate::text::bytes_eq(l.as_slice(), w.as_slice()) {
            return Ok(ImageFormat::TIFF);
        }
        let mut w: Vec<u8> = Vec::new();
        push_lit(&mut w, "pdf");
        if crate::text::bytes_eq(l.as_slice(), w.as_slice()) {
            return Ok(ImageFormat::PDF);
        }
        let mut w: Vec<u8> = Vec::new();
        push_lit(&mut w, "ps");
        if crate::text::bytes_eq(l.as_slice(), w.as_slice()) {
            return Ok(ImageFormat::PS);
        }
        let mut w: Vec<u8> = Vec::new();
        push_lit(&mut w, "svg");
        if crate::text::bytes_eq(l.as_slice(), w.as_slice()) {
            return Ok(ImageFormat::SVG);
        }
        Err(UnknownImageFormat(crate::text::copy_bytes(input)))
    }

    /// The name the image backend knows each format by.
    pub fn magick_str(&self) -> (r: &'static str)
        ensures
            r@ == match *self {
                ImageFormat::PNG => "PNG"@,
                ImageFormat::JPEG => "JPEG"@,
                ImageFormat::TIFF => "TIF"@,
                ImageFormat::PDF => "PDF"@,
                ImageFormat::PS => "PS"@,
                ImageFormat::SVG => "SVG"@,
                ImageFormat::Undefined => ""@,
            },
    {
        match *self {
            ImageFormat::PNG => "PNG",
            ImageFormat::JPEG => "JPEG",
            ImageFormat::TIFF => "TIF",
            ImageFormat::PDF => "PDF",
            ImageFormat::PS => "PS",
            ImageFormat::SVG => "SVG",
            ImageFormat::Undefined => "",
        }
    }

    /// The content type served for each format; an undefined format is
    /// served as plain text.
    pub fn content_type(&self) -> (r: &'static str)
        ensures
            r@ == match *self {
                ImageFormat::PNG => "image/png"@,
                ImageFormat::JPEG => "image/jpeg"@,
                ImageFormat::TIFF => "image/tiff"@,
                ImageFormat::PDF => "application/pdf"@,
                ImageFormat::PS => "application/postscript"@,
                ImageFormat::SVG => "image/svg+xml"@,
                ImageFormat::Undefined => "text/plain; charset=utf-8"@,
            },
    {
        match *self {
            ImageFormat::PNG => "image/png",
            ImageFormat::JPEG => "image/jpeg",
            ImageFormat::TIFF => "image/tiff",
            ImageFormat::PDF => "application/pdf",
            ImageFormat::PS => "application/postscript",
            ImageFormat::SVG => "image/svg+xml",
            ImageFormat::Undefined => "text/plain; charset=utf-8",
        }
    }
}

impl ColorProfile {
    /// The colorspace each profile's image data is in.
    pub fn colorspace(&self) -> (r: Colorspace)
        ensures
            r == match *self {
                ColorProfile::SRGB => Colorspace::SRGB,
                ColorProfile::Fogra39 => Colorspace::CMYK,
            },
    {
        match *self {
            ColorProfile::SRGB => Colorspace::SRGB,
            ColorProfile::Fogra39 => Colorspace::CMYK,
        }
    }
}

} // verus!
