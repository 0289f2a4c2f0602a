use qwencraft::shader::{fs_source, module_source, FS_MAIN, FS_W_MAIN, SHADER, TEXTURES, TEX_LIB};

#[test]
fn shader_module_is_valid_wgsl() {
    let source = format!("{SHADER}{TEXTURES}");
    let module = naga::front::wgsl::parse_str(&source).expect("WGSL must parse");
    let mut validator = naga::valid::Validator::new(
        naga::valid::ValidationFlags::all(),
        naga::valid::Capabilities::all(),
    );
    validator
        .validate(&module)
        .expect("WGSL must pass naga validation (same front-end family as Dawn)");
}

#[test]
fn every_texture_function_is_defined() {
    let source = format!("{SHADER}{TEXTURES}");
    let mut defined = std::collections::HashSet::new();
    for line in source.lines() {
        if let Some(rest) = line.strip_prefix("fn ") {
            if let Some(name) = rest.split(['<', '(']).next() {
                defined.insert(name.to_string());
            }
        }
    }
    for name in [
        "tex_grass_top",
        "tex_grass_side",
        "tex_dirt",
        "tex_stone",
        "tex_sand",
        "tex_water",
        "tex_log_side",
        "tex_log_top",
        "tex_leaves",
        "tex_snow_top",
        "tex_snow_side",
        "tex_flower_red",
        "tex_flower_yellow",
        "tex_planks",
        "tex_cobble",
        "tex_brick",
        "tex_glass",
        "tex_tnt_side",
        "tex_tnt_top",
        "tex_obsidian",
        "tex_highlight",
        "sample_tex",
        "tex_trans_alpha",
    ] {
        assert!(defined.contains(name), "texture function `{name}` is missing from the WGSL");
    }
}

#[test]
fn fragment_stages_are_put_together() {
    let s = fs_source(FS_MAIN);
    assert!(s.starts_with("#version 300 es\n"));
    assert!(s.contains(TEX_LIB));
    assert!(s.ends_with(FS_MAIN));
    assert!(fs_source(FS_W_MAIN).contains("tex_trans_alpha(v_tex)"));
    assert_eq!(module_source(), format!("{SHADER}{TEXTURES}"));
}

#[test]
fn both_languages_have_the_same_textures() {
    for line in TEXTURES.lines() {
        if let Some(rest) = line.strip_prefix("fn ") {
            let name = rest.split('(').next().unwrap();
            assert!(TEX_LIB.contains(&format!(" {name}(")), "{name} is missing");
        }
    }
}
