use vstd::prelude::*;

verus! {

/// Numeric develop settings of the remote application.
#[derive(PartialEq, Eq, Structural, Clone, Copy, Debug, Hash)]
pub enum FloatParam {
    Temperature,
    Tint,
    Exposure,
    Contrast,
    Highlights,
    Shadows,
    Whites,
    Blacks,
    Texture,
    Clarity,
    Dehaze,
    Vibrance,
    Saturation,
    Brightness,
}

/// On/off develop settings of the remote application.
#[derive(PartialEq, Eq, Structural, Clone, Copy, Debug, Hash)]
pub enum BoolParam {
    ConvertToGrayscale,
    EnableColorAdjustments,
    EnableDetail,
    EnableEffects,
    EnableLensCorrections,
    EnableToneCurve,
    AutoLateralCA,
}

/// Textual parameters. `Profile` is the reserved name of the active profile and
/// `Custom` carries any user-defined name; both live inside this engine.
#[derive(PartialEq, Eq, Debug, Hash)]
pub enum StringParam {
    Profile,
    WhiteBalance,
    CameraProfile,
    Custom(String),
}

/// The spec-level identity of a string parameter.
pub enum StringKey {
    Profile,
    WhiteBalance,
    CameraProfile,
    Custom(Seq<char>),
}

impl View for StringParam {
    type V = StringKey;

    open spec fn view(&self) -> StringKey {
        match self {
            StringParam::Profile => StringKey::Profile,
            StringParam::WhiteBalance => StringKey::WhiteBalance,
            StringParam::CameraProfile => StringKey::CameraProfile,
            StringParam::Custom(name) => StringKey::Custom(name@),
        }
    }
}

impl Clone for StringParam {
    fn clone(&self) -> (r: Self)
        ensures
            r == *self,
    {
        match self {
            StringParam::Profile => StringParam::Profile,
            StringParam::WhiteBalance => StringParam::WhiteBalance,
            StringParam::CameraProfile => StringParam::CameraProfile,
            StringParam::Custom(name) => StringParam::Custom(name.clone()),
        }
    }
}

impl StringParam {
    /// Whether two string parameters name the same piece of state.
    pub fn same(&self, other: &StringParam) -> (r: bool)
        ensures
            r == (self@ == other@),
    {
        match (self, other) {
            (StringParam::Profile, StringParam::Profile) => true,
            (StringParam::WhiteBalance, StringParam::WhiteBalance) => true,
            (StringParam::CameraProfile, StringParam::CameraProfile) => true,
            (StringParam::Custom(a), StringParam::Custom(b)) => a.eq(b),
            _ => false,
        }
    }
}

/// A string parameter as it may be written in configuration: either one of
/// the known names or an arbitrary custom name.
#[derive(Debug)]
pub enum SerializedStringParam {
    Param(StringParam),
    Custom(String),
}

impl SerializedStringParam {
    /// The parameter this spelling denotes; unknown names become custom ones.
    pub fn into_param(self) -> (r: StringParam)
        ensures
            r == (match self {
                SerializedStringParam::Param(p) => p,
                SerializedStringParam::Custom(s) => StringParam::Custom(s),
            }),
    {
        match self {
            SerializedStringParam::Param(p) => p,
            SerializedStringParam::Custom(s) => StringParam::Custom(s),
        }
    }
}

/// Any parameter, tagged with its namespace.
#[derive(PartialEq, Eq, Debug)]
pub enum Param {
    Float(FloatParam),
    Bool(BoolParam),
    String(StringParam),
}

impl Clone for Param {
    fn clone(&self) -> (r: Self)
        ensures
            r == *self,
    {
        match self {
            Param::Float(p) => Param::Float(*p),
            Param::Bool(p) => Param::Bool(*p),
            Param::String(p) => Param::String(p.clone()),
        }
    }
}

/// Where the effect of setting a parameter is consumed.
#[derive(PartialEq, Eq, Structural, Clone, Copy, Debug)]
pub enum Module {
    Internal,
    Lightroom,
}

/// The fixed module affiliation of each parameter: the active profile and
/// custom string parameters are internal, everything else is remote.
pub open spec fn module_of(param: Param) -> Module {
    match param {
        Param::String(StringParam::Profile) => Module::Internal,
        Param::String(StringParam::Custom(_)) => Module::Internal,
        _ => Module::Lightroom,
    }
}

/// Classifies a parameter as internal or remote.
pub fn param_module(param: &Param) -> (r: Module)
    ensures
        r == module_of(*param),
{
    match param {
        Param::String(StringParam::Profile) => Module::Internal,
        Param::String(StringParam::Custom(_)) => Module::Internal,
        _ => Module::Lightroom,
    }
}

} // verus!
