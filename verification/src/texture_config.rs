use vstd::prelude::*;

verus! {

/// How a texture is sampled between texels.
#[derive(Debug, Copy, Clone, PartialEq, Eq, Structural)]
pub enum TextureFilter {
    Linear,
    Nearest,
}

/// How a texture is sampled outside its bounds.
#[derive(Debug, Copy, Clone, PartialEq, Eq, Structural)]
pub enum TextureWrap {
    Clamp,
    Repeat,
}

/// The role of a texture in a material, after the importer's texture types.
#[derive(Debug, Clone, Copy, Eq, Hash, PartialEq, Structural)]
pub enum TextureType {
    /// No texture: the importer's type of that name.
    NoTexture,
    Diffuse,
    Specular,
    Ambient,
    Emissive,
    Height,
    Normals,
    Shininess,
    Opacity,
    Displacement,
    Lightmap,
    Reflection,
    BaseColor,
    Unknown,
    NormalCamera,
    EmissionColor,
    Metalness,
    Roughness,
    AmbientOcclusion,
    Sheen,
    ClearCoat,
    Transmission,
    Force32bit,
}

impl TextureType {
    /// The importer's number for the texture type.
    pub open spec fn spec_code(self) -> u32 {
        match self {
            TextureType::NoTexture => 0,
            TextureType::Diffuse => 1,
            TextureType::Specular => 2,
            TextureType::Ambient => 3,
            TextureType::Emissive => 4,
            TextureType::Height => 5,
            TextureType::Normals => 6,
            TextureType::Shininess => 7,
            TextureType::Opacity => 8,
            TextureType::Displacement => 9,
            TextureType::Lightmap => 10,
            TextureType::Reflection => 11,
            TextureType::BaseColor => 12,
            TextureType::Unknown => 18,
            TextureType::NormalCamera => 13,
            TextureType::EmissionColor => 14,
            TextureType::Metalness => 15,
            TextureType::Roughness => 16,
            TextureType::AmbientOcclusion => 17,
            TextureType::Sheen => 19,
            TextureType::ClearCoat => 20,
            TextureType::Transmission => 21,
            TextureType::Force32bit => 2147483647,
        }
    }

    /// The name of the texture type as shaders know it.
    pub open spec fn spec_name(self) -> Seq<char> {
        match self {
            TextureType::NoTexture => "texture_none"@,
            TextureType::Diffuse => "texture_diffuse"@,
            TextureType::Specular => "texture_specular"@,
            TextureType::Ambient => "texture_ambient"@,
            TextureType::Emissive => "texture_emissive"@,
            TextureType::Height => "texture_height"@,
            TextureType::Normals => "texture_normal"@,
            TextureType::Shininess => "texture_shininess"@,
            TextureType::Opacity => "texture_opacity"@,
            TextureType::Displacement => "texture_displacement"@,
            TextureType::Lightmap => "texture_lightmap"@,
            TextureType::Reflection => "texture_reflection"@,
            TextureType::BaseColor => "texture_basecolor"@,
            TextureType::Unknown => "texture_unknown"@,
            TextureType::NormalCamera => "texture_normalcamera"@,
            TextureType::EmissionColor => "texture_emissioncolor"@,
            TextureType::Metalness => "texture_metalness"@,
            TextureType::Roughness => "texture_roughness"@,
            TextureType::AmbientOcclusion => "texture_ambientocclusion"@,
            TextureType::Sheen => "texture_sheen"@,
            TextureType::ClearCoat => "texture_clearcoat"@,
            TextureType::Transmission => "texture_transmission"@,
            TextureType::Force32bit => "texture_force32bit"@,
        }
    }

    /// The importer's number for the texture type.
    #[verifier::when_used_as_spec(spec_code)]
    pub fn code(self) -> (r: u32)
        ensures
            r == self.spec_code(),
    {
        match self {
            TextureType::NoTexture => 0,
            TextureType::Diffuse => 1,
            TextureType::Specular => 2,
            TextureType::Ambient => 3,
            TextureType::Emissive => 4,
            TextureType::Height => 5,
            TextureType::Normals => 6,
            TextureType::Shininess => 7,
            TextureType::Opacity => 8,
            TextureType::Displacement => 9,
            TextureType::Lightmap => 10,
            TextureType::Reflection => 11,
            TextureType::BaseColor => 12,
            TextureType::Unknown => 18,
            TextureType::NormalCamera => 13,
            TextureType::EmissionColor => 14,
            TextureType::Metalness => 15,
            TextureType::Roughness => 16,
            TextureType::AmbientOcclusion => 17,
            TextureType::Sheen => 19,
            TextureType::ClearCoat => 20,
            TextureType::Transmission => 21,
            TextureType::Force32bit => 2147483647,
        }
    }

    /// The texture type that the importer numbers `code`; `NoTexture` where it numbers no
    /// texture type so.
    pub fn convert_from(code: u32) -> (r: Self)
        ensures
            forall|t: TextureType| t.spec_code() == code ==> r == t,
            (forall|t: TextureType| t.spec_code() != code) ==> r == TextureType::NoTexture,
    {
        let r = if code == 1 {
            TextureType::Diffuse
        } else if code == 2 {
            TextureType::Specular
        } else if code == 3 {
            TextureType::Ambient
        } else if code == 4 {
            TextureType::Emissive
        } else if code == 5 {
            TextureType::Height
        } else if code == 6 {
            TextureType::Normals
        } else if code == 7 {
            TextureType::Shininess
        } else if code == 8 {
            TextureType::Opacity
        } else if code == 9 {
            TextureType::Displacement
        } else if code == 10 {
            TextureType::Lightmap
        } else if code == 11 {
            TextureType::Reflection
        } else if code == 12 {
            TextureType::BaseColor
        } else if code == 18 {
            TextureType::Unknown
        } else if code == 13 {
            TextureType::NormalCamera
        } else if code == 14 {
            TextureType::EmissionColor
        } else if code == 15 {
            TextureType::Metalness
        } else if code == 16 {
            TextureType::Roughness
        } else if code == 17 {
            TextureType::AmbientOcclusion
        } else if code == 19 {
            TextureType::Sheen
        } else if code == 20 {
            TextureType::ClearCoat
        } else if code == 21 {
            TextureType::Transmission
        } else if code == 2147483647 {
            TextureType::Force32bit
        } else {
            TextureType::NoTexture
        };
        assert(r == TextureType::NoTexture || r.spec_code() == code);
        r
    }

    /// The name of the texture type as shaders know it.
    pub fn name(&self) -> (r: String)
        ensures
            r@ == self.spec_name(),
    {
        match self {
            TextureType::NoTexture => "texture_none".to_string(),
            TextureType::Diffuse => "texture_diffuse".to_string(),
            TextureType::Specular => "texture_specular".to_string(),
            TextureType::Ambient => "texture_ambient".to_string(),
            TextureType::Emissive => "texture_emissive".to_string(),
            TextureType::Height => "texture_height".to_string(),
            TextureType::Normals => "texture_normal".to_string(),
            TextureType::Shininess => "texture_shininess".to_string(),
            TextureType::Opacity => "texture_opacity".to_string(),
            TextureType::Displacement => "texture_displacement".to_string(),
            TextureType::Lightmap => "texture_lightmap".to_string(),
            TextureType::Reflection => "texture_reflection".to_string(),
            TextureType::BaseColor => "texture_basecolor".to_string(),
            TextureType::Unknown => "texture_unknown".to_string(),
            TextureType::NormalCamera => "texture_normalcamera".to_string(),
            TextureType::EmissionColor => "texture_emissioncolor".to_string(),
            TextureType::Metalness => "texture_metalness".to_string(),
            TextureType::Roughness => "texture_roughness".to_string(),
            TextureType::AmbientOcclusion => "texture_ambientocclusion".to_string(),
            TextureType::Sheen => "texture_sheen".to_string(),
            TextureType::ClearCoat => "texture_clearcoat".to_string(),
            TextureType::Transmission => "texture_transmission".to_string(),
            TextureType::Force32bit => "texture_force32bit".to_string(),
        }
    }
}

/// Numbering a texture type and converting the number back gives the texture type.
pub proof fn lemma_code_round_trip(t: TextureType)
    ensures
        forall|u: TextureType| u.spec_code() == t.spec_code() ==> u == t,
{
}

/// How a texture is to be loaded and sampled.
#[derive(Debug, Clone, Copy, PartialEq, Eq, Structural)]
pub struct TextureConfig {
    pub texture_type: TextureType,
    pub filter: TextureFilter,
    pub wrap: TextureWrap,
    pub flip_v: bool,
    pub flip_h: bool,
    pub gamma_correction: bool,
}

impl Default for TextureConfig {
    fn default() -> (r: Self)
        ensures
            r == TextureConfig::spec_new(),
    {
        TextureConfig::new()
    }
}

impl TextureConfig {
    /// A diffuse texture, filtered linearly, clamped, not flipped, not gamma
    /// corrected.
    pub open spec fn spec_new() -> TextureConfig {
        TextureConfig {
            texture_type: TextureType::Diffuse,
            filter: TextureFilter::Linear,
            wrap: TextureWrap::Clamp,
            flip_v: false,
            flip_h: false,
            gamma_correction: false,
        }
    }

    #[verifier::when_used_as_spec(spec_new)]
    pub fn new() -> (r: Self)
        ensures
            r == TextureConfig::spec_new(),
    {
        TextureConfig {
            texture_type: TextureType::Diffuse,
            filter: TextureFilter::Linear,
            wrap: TextureWrap::Clamp,
            flip_v: false,
            flip_h: false,
            gamma_correction: false,
        }
    }

    pub fn set_type(self, texture_type: TextureType) -> (r: Self)
        ensures
            r == (TextureConfig { texture_type, ..self }),
    {
        TextureConfig { texture_type, ..self }
    }

    pub fn set_filter(self, filter_type: TextureFilter) -> (r: Self)
        ensures
            r == (TextureConfig { filter: filter_type, ..self }),
    {
        TextureConfig { filter: filter_type, ..self }
    }

    pub fn set_wrap(self, wrap_type: TextureWrap) -> (r: Self)
        ensures
            r == (TextureConfig { wrap: wrap_type, ..self }),
    {
        TextureConfig { wrap: wrap_type, ..self }
    }

    pub fn set_flipv(self, flip_v: bool) -> (r: Self)
        ensures
            r == (TextureConfig { flip_v, ..self }),
    {
        TextureConfig { flip_v, ..self }
    }

    pub fn set_fliph(self, flip_h: bool) -> (r: Self)
        ensures
            r == (TextureConfig { flip_h, ..self }),
    {
        TextureConfig { flip_h, ..self }
    }

    pub fn set_gamma_correction(self, correct_gamma: bool) -> (r: Self)
        ensures
            r == (TextureConfig { gamma_correction: correct_gamma, ..self }),
    {
        TextureConfig { gamma_correction: correct_gamma, ..self }
    }
}

} // verus!
