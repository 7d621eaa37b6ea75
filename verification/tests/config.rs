use spark_gap::error::Error;
use spark_gap::texture_config::{TextureConfig, TextureFilter, TextureType, TextureWrap};
use spark_gap::file_name::file_name_of;
use spark_gap::utils::{get_exists_filename, max, min, rand_int};

#[test]
fn texture_config_starts_from_the_defaults() {
    let c = TextureConfig::new();
    assert_eq!(c.texture_type, TextureType::Diffuse);
    assert_eq!(c.filter, TextureFilter::Linear);
    assert_eq!(c.wrap, TextureWrap::Clamp);
    assert!(!c.flip_v && !c.flip_h && !c.gamma_correction);
    assert_eq!(TextureConfig::default(), c);
}

#[test]
fn texture_config_setters_change_one_field_each() {
    let base = TextureConfig::new();
    assert_eq!(
        base.set_type(TextureType::Normals),
        TextureConfig { texture_type: TextureType::Normals, ..base }
    );
    assert_eq!(
        base.set_filter(TextureFilter::Nearest),
        TextureConfig { filter: TextureFilter::Nearest, ..base }
    );
    assert_eq!(
        base.set_wrap(TextureWrap::Repeat),
        TextureConfig { wrap: TextureWrap::Repeat, ..base }
    );
    assert_eq!(base.set_flipv(true), TextureConfig { flip_v: true, ..base });
    assert_eq!(base.set_fliph(true), TextureConfig { flip_h: true, ..base });
    assert_eq!(base.set_gamma_correction(true), TextureConfig { gamma_correction: true, ..base });
    let all = base
        .set_type(TextureType::Specular)
        .set_filter(TextureFilter::Nearest)
        .set_wrap(TextureWrap::Repeat)
        .set_flipv(true)
        .set_fliph(true)
        .set_gamma_correction(true);
    assert_eq!(
        all,
        TextureConfig {
            texture_type: TextureType::Specular,
            filter: TextureFilter::Nearest,
            wrap: TextureWrap::Repeat,
            flip_v: true,
            flip_h: true,
            gamma_correction: true,
        }
    );
}

#[test]
fn texture_types_have_the_importers_numbers() {
    assert_eq!(TextureType::NoTexture.code(), 0);
    assert_eq!(TextureType::Diffuse.code(), 1);
    assert_eq!(TextureType::BaseColor.code(), 12);
    assert_eq!(TextureType::NormalCamera.code(), 13);
    assert_eq!(TextureType::AmbientOcclusion.code(), 17);
    assert_eq!(TextureType::Unknown.code(), 18);
    assert_eq!(TextureType::Transmission.code(), 21);
    assert_eq!(TextureType::Force32bit.code(), 2147483647);
}

#[test]
fn texture_type_numbers_convert_back() {
    let all = [
        TextureType::NoTexture,
        TextureType::Diffuse,
        TextureType::Specular,
        TextureType::Ambient,
        TextureType::Emissive,
        TextureType::Height,
        TextureType::Normals,
        TextureType::Shininess,
        TextureType::Opacity,
        TextureType::Displacement,
        TextureType::Lightmap,
        TextureType::Reflection,
        TextureType::BaseColor,
        TextureType::Unknown,
        TextureType::NormalCamera,
        TextureType::EmissionColor,
        TextureType::Metalness,
        TextureType::Roughness,
        TextureType::AmbientOcclusion,
        TextureType::Sheen,
        TextureType::ClearCoat,
        TextureType::Transmission,
        TextureType::Force32bit,
    ];
    for t in all {
        assert_eq!(TextureType::convert_from(t.code()), t);
    }
    assert_eq!(TextureType::convert_from(22), TextureType::NoTexture);
    assert_eq!(TextureType::convert_from(u32::MAX), TextureType::NoTexture);
}

#[test]
fn texture_types_have_their_shader_names() {
    assert_eq!(TextureType::Diffuse.name(), "texture_diffuse");
    assert_eq!(TextureType::Normals.name(), "texture_normal");
    assert_eq!(TextureType::NoTexture.name(), "texture_none");
    assert_eq!(TextureType::AmbientOcclusion.name(), "texture_ambientocclusion");
    assert_eq!(TextureType::Force32bit.name(), "texture_force32bit");
}

#[test]
fn min_and_max_pick_by_comparison() {
    assert_eq!(min(3, 5), 3);
    assert_eq!(min(5, 3), 3);
    assert_eq!(min(-1i128, 1i128), -1);
    assert_eq!(max(3, 5), 5);
    assert_eq!(max(5, 3), 5);
    assert_eq!(min("a", "b"), "a");
    assert_eq!(max(2.5, 1.5), 2.5);
    // Where neither is smaller, or greater, the second is handed back.
    assert!(min(f64::NAN, 1.0) == 1.0);
    assert!(max(1.0, f64::NAN).is_nan());
}

#[test]
fn the_first_name_that_a_file_lies_under_is_taken() {
    let pick = |direct, flat| get_exists_filename("textures\\wood.png", direct, flat);
    assert_eq!(pick(true, true), Ok("textures\\wood.png".to_string()));
    assert_eq!(pick(true, false), Ok("textures\\wood.png".to_string()));
    assert_eq!(pick(false, true), Ok("wood.png".to_string()));
    assert_eq!(pick(false, false), Err(Error::PathError("wood.png".to_string())));
    assert_eq!(get_exists_filename("a/b/c.png", false, true), Ok("c.png".to_string()));
    assert_eq!(get_exists_filename("..", true, false), Ok("..".to_string()));
}

#[test]
fn file_name_is_the_last_component() {
    let name = |s: &str| file_name_of(s);
    assert_eq!(name("textures\\wood.png"), Some("wood.png".to_string()));
    assert_eq!(name("textures/wood.png"), Some("wood.png".to_string()));
    assert_eq!(name("a\\b/c\\d.png"), Some("d.png".to_string()));
    assert_eq!(name("wood.png"), Some("wood.png".to_string()));
    assert_eq!(name("a/b/"), Some("b".to_string()));
    assert_eq!(name("a/b//"), Some("b".to_string()));
    assert_eq!(name("a/b/."), Some("b".to_string()));
    assert_eq!(name("a/./"), Some("a".to_string()));
    assert_eq!(name("./a"), Some("a".to_string()));
    assert_eq!(name(".hidden"), Some(".hidden".to_string()));
    assert_eq!(name("a/..."), Some("...".to_string()));
    assert_eq!(name("a."), Some("a.".to_string()));
    assert_eq!(name("h\u{e9}\u{e9}/\u{fc}.png"), Some("\u{fc}.png".to_string()));
    assert_eq!(name(""), None);
    assert_eq!(name("/"), None);
    assert_eq!(name("."), None);
    assert_eq!(name("./"), None);
    assert_eq!(name(".."), None);
    assert_eq!(name("a/.."), None);
    assert_eq!(name("a\\.."), None);
}

#[test]
fn file_name_is_what_the_platform_finds_once_backslashes_are_slashes() {
    // Every name of up to seven characters over a small alphabet.
    let alphabet = ['a', '.', '/', '\\'];
    let mut names = vec![String::new()];
    let mut from = 0;
    for _ in 0..7 {
        let upto = names.len();
        for i in from..upto {
            for c in alphabet {
                let mut longer = names[i].clone();
                longer.push(c);
                names.push(longer);
            }
        }
        from = upto;
    }
    assert_eq!(names.len(), 21845);
    for name in names {
        let path = std::path::PathBuf::from(name.replace('\\', "/"));
        let expected = path.file_name().map(|n| n.to_string_lossy().into_owned());
        assert_eq!(file_name_of(&name), expected, "for {:?}", name);
    }
}

#[test]
fn errors_describe_themselves() {
    assert_eq!(Error::PathError("x".to_string()).message(), "filename not found");
    assert_eq!(Error::DataError.message(), "animation time out of bounds");
    assert_eq!(Error::ConfigError(3).message(), "target animation tick out of range");
    assert_eq!(Error::Precondition.message(), "bone or mesh index exceeds output capacity");
}

#[test]
fn random_numbers_lie_in_their_range() {
    assert_eq!(rand_int(7, 7), 7);
    assert_eq!(rand_int(i32::MIN, i32::MIN), i32::MIN);
    let draws: Vec<i32> = (0..500).map(|_| rand_int(-3, 1_000_000)).collect();
    assert!(draws.iter().all(|n| (-3..=1_000_000).contains(n)));
    // The bounds are not simply handed back.
    assert!(draws.iter().any(|n| *n != -3) && draws.iter().any(|n| *n != 1_000_000));
    assert!(draws.iter().any(|n| *n != draws[0]));
    let dice: Vec<i32> = (0..500).map(|_| rand_int(1, 6)).collect();
    assert!(dice.iter().all(|n| (1..=6).contains(n)));
}
