use vstd::prelude::*;
use vstd::string::StringExecFns;

verus! {

/// The format in which images are written.
#[derive(Clone, Copy, PartialEq, Eq, Structural, Debug)]
pub enum ImageFormat {
    Png,
    Svg,
    Webp,
}

/// A vector format is rendered once, whatever the scale.
pub open spec fn scale_invariant(format: ImageFormat) -> bool {
    format == ImageFormat::Svg
}

/// A format that is not fetched as such, but made from what was fetched.
pub open spec fn needs_reencoding(format: ImageFormat) -> bool {
    format == ImageFormat::Webp
}

/// The file extension of a format.
pub open spec fn extension_of(format: ImageFormat) -> Seq<char> {
    match format {
        ImageFormat::Png => "png"@,
        ImageFormat::Svg => "svg"@,
        ImageFormat::Webp => "webp"@,
    }
}

impl ImageFormat {
    pub fn is_svg(&self) -> (b: bool)
        ensures
            b == scale_invariant(*self),
    {
        match self {
            ImageFormat::Svg => true,
            _ => false,
        }
    }

    pub fn is_reencoded(&self) -> (b: bool)
        ensures
            b == needs_reencoding(*self),
    {
        match self {
            ImageFormat::Webp => true,
            _ => false,
        }
    }

    pub fn extension(&self) -> (ext: String)
        ensures
            ext@ == extension_of(*self),
    {
        match self {
            ImageFormat::Png => String::from_str("png"),
            ImageFormat::Svg => String::from_str("svg"),
            ImageFormat::Webp => String::from_str("webp"),
        }
    }
}

/// One thousandth is the unit in which scale factors are held.
pub const UNIT_SCALE: u32 = 1000;

/// A named multiplier at which an image is rendered. The factor is held in
/// thousandths: 1500 stands for one and a half.
#[derive(Clone, Debug, PartialEq, Eq)]
pub struct Scale {
    pub label: String,
    pub factor_milli: u32,
}

pub struct ScaleView {
    pub label: Seq<char>,
    pub factor_milli: u32,
}

impl View for Scale {
    type V = ScaleView;

    open spec fn view(&self) -> ScaleView {
        ScaleView { label: self.label@, factor_milli: self.factor_milli }
    }
}

/// The views of the scales of `v`, in order.
pub open spec fn scale_views(v: Seq<Scale>) -> Seq<ScaleView> {
    Seq::new(v.len(), |i: int| v[i]@)
}

/// The one scale at which a scale-invariant format is rendered: no label,
/// factor one.
pub open spec fn single_scale() -> ScaleView {
    ScaleView { label: Seq::empty(), factor_milli: UNIT_SCALE }
}

/// The scales at which images of `format` are rendered.
pub open spec fn effective_scales(scales: Seq<ScaleView>, format: ImageFormat) -> Seq<ScaleView> {
    if scale_invariant(format) {
        seq![single_scale()]
    } else {
        scales
    }
}

} // verus!
