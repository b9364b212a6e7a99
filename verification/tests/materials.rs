use quantfocus::materials::{
    get_preset_material, list_preset_names, preset_materials, CustomMaterialSpec,
};

#[test]
fn presets_are_copper_silicon_carbon() {
    let names = list_preset_names();
    assert_eq!(names, vec!["Copper", "Silicon", "Carbon"]);
    let materials = preset_materials();
    assert_eq!(materials.len(), 3);
    assert_eq!(materials[0].atomic_number, 29);
    assert_eq!(materials[0].density_g_cm3, 8960);
    assert_eq!(materials[1].atomic_number, 14);
    assert_eq!(materials[2].atomic_number, 6);
}

#[test]
fn preset_lookup_ignores_ascii_case() {
    let m = get_preset_material("copper").expect("copper is a preset");
    assert_eq!(m.name, "Copper");
    assert_eq!(m.atomic_number, 29);
    let m = get_preset_material("SILICON").expect("silicon is a preset");
    assert_eq!(m.density_g_cm3, 2330);
    let m = get_preset_material("cArBoN").expect("carbon is a preset");
    assert_eq!(m.density_g_cm3, 2000);
    assert!(get_preset_material("gold").is_none());
    assert!(get_preset_material("").is_none());
    assert!(get_preset_material("Coppe").is_none());
}

#[test]
fn custom_material_validation() {
    let ok = CustomMaterialSpec {
        name: String::from("Gold"),
        atomic_number: 79,
        density_g_cm3: 19_300,
    }
    .try_into_material()
    .expect("valid material");
    assert_eq!(ok.name, "Gold");
    assert_eq!(ok.atomic_number, 79);
    assert_eq!(ok.density_g_cm3, 19_300);

    let blank = CustomMaterialSpec {
        name: String::from("   "),
        atomic_number: 79,
        density_g_cm3: 19_300,
    }
    .try_into_material();
    assert_eq!(blank.unwrap_err(), "Material name cannot be empty");

    // Unicode whitespace counts as blank too: what trimming would
    // remove cannot be a whole name.
    let nbsp = CustomMaterialSpec {
        name: String::from("\u{00A0}\u{2003}\u{3000}"),
        atomic_number: 79,
        density_g_cm3: 19_300,
    }
    .try_into_material();
    assert_eq!(nbsp.unwrap_err(), "Material name cannot be empty");
    assert_eq!(String::from("\u{00A0}\u{2003}\u{3000}").trim(), "");

    let padded = CustomMaterialSpec {
        name: String::from("\u{00A0}Gold\u{00A0}"),
        atomic_number: 79,
        density_g_cm3: 19_300,
    }
    .try_into_material();
    assert!(padded.is_ok());

    let heavy = CustomMaterialSpec {
        name: String::from("Unobtainium"),
        atomic_number: 101,
        density_g_cm3: 1,
    }
    .try_into_material();
    assert_eq!(heavy.unwrap_err(), "atomic_number must be between 1 and 100");

    let weightless = CustomMaterialSpec {
        name: String::from("Aerogel"),
        atomic_number: 6,
        density_g_cm3: 0,
    }
    .try_into_material();
    assert_eq!(weightless.unwrap_err(), "density_g_cm3 must be > 0");
}
