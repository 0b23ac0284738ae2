use nexus_launcher::catalog::{
    game_library_subpaths, is_game_library, parse_drive_list, scan_all, AppEntry, CatalogBuilder, Category,
    RootListing, WalkedFile,
};
use nexus_launcher::names::{clean_app_name, is_noise, is_noise_lower};

fn reg(name: &str, path: &str) -> AppEntry {
    AppEntry { name: name.to_string(), path: path.to_string(), icon: None, category: None }
}

fn file(path: &str, stem: &str, ext: &str, size: u64) -> WalkedFile {
    WalkedFile { path: path.to_string(), stem: stem.to_string(), ext: ext.to_string(), size }
}

fn root(root: &str, files: Vec<WalkedFile>) -> RootListing {
    RootListing { root: root.to_string(), files }
}

#[test]
fn clean_strips_extension_and_markers() {
    assert_eq!(clean_app_name("Calc.exe"), "Calc");
    assert_eq!(clean_app_name("Tool_x64.exe"), "Tool");
    assert_eq!(clean_app_name("Game_x86"), "Game");
    assert_eq!(clean_app_name("Editor-x64"), "Editor");
    assert_eq!(clean_app_name("Viewer (x64)"), "Viewer");
    assert_eq!(clean_app_name("  Player (x86)  "), "Player");
    assert_eq!(clean_app_name(""), "");
    assert_eq!(clean_app_name("\u{3000}Foo\u{a0}\t"), "Foo");
}

#[test]
fn clean_is_idempotent_on_ordinary_names() {
    for raw in ["Calc.exe", "  Tool_x64 ", "Visual Studio Code", "a.exe.exe", "App (x64) (x86)"] {
        let once = clean_app_name(raw);
        assert_eq!(clean_app_name(&once), once);
    }
}

#[test]
fn clean_removes_markers_formed_by_removal() {
    assert_eq!(clean_app_name("..exeexe"), "");
    assert_eq!(clean_app_name("_x6_x644"), "");
    assert_eq!(clean_app_name("Tool.e.exexe"), "Tool");
    for raw in ["..exeexe", "_x6_x644", "a (x6 (x64)4)"] {
        let once = clean_app_name(raw);
        assert_eq!(clean_app_name(&once), once);
    }
}

#[test]
fn noise_scenarios() {
    assert!(is_noise("vcredist_x64_setup", ""));
    assert!(!is_noise("Football Manager 2024", ""));
    assert!(!is_noise("Visual Studio Code", ""));
    assert!(is_noise("Unins000", ""));
}

#[test]
fn noise_is_case_insensitive() {
    assert!(is_noise("VCREDIST", ""));
    assert!(!is_noise_lower("VCREDIST"));
    assert!(is_noise_lower("vcredist"));
}

#[test]
fn whitelist_overrides_keywords() {
    assert!(!is_noise("Football Manager Setup", ""));
    assert!(!is_noise("Manager of Worlds Helper", ""));
    assert!(!is_noise("SDK Game Tools", ""));
    assert!(!is_noise("MidnightPad Helper", ""));
}

#[test]
fn registry_entry_wins_over_start_menu_shortcut() {
    let registry = vec![reg("Calc.exe", "C:\\calc.exe")];
    let roots = vec![root(
        "C:\\ProgramData\\Microsoft\\Windows\\Start Menu\\Programs",
        vec![
            file("C:\\ProgramData\\Microsoft\\Windows\\Start Menu\\Programs\\Calc.lnk", "Calc", "lnk", 2_000),
            file("C:\\CALC.EXE", "Calculator", "exe", 9_000_000),
        ],
    )];
    let cat = scan_all(&registry, &roots);
    assert_eq!(cat.len(), 1);
    assert_eq!(cat[0].name, "Calc");
    assert_eq!(cat[0].path, "C:\\calc.exe");
    assert_eq!(cat[0].category, None);
}

#[test]
fn size_gate_and_exception() {
    let roots = vec![root(
        "D:\\Tools",
        vec![
            file("D:\\Tools\\tiny.exe", "tiny", "exe", 3_499_999),
            file("D:\\Tools\\MidnightPad.exe", "MidnightPad", "exe", 10),
            file("D:\\Tools\\Big.exe", "Big", "exe", 3_500_000),
            file("D:\\Tools\\small.lnk", "small", "lnk", 1),
            file("D:\\Tools\\readme.txt", "readme", "txt", 9_000_000),
        ],
    )];
    let cat = scan_all(&Vec::new(), &roots);
    let names: Vec<&str> = cat.iter().map(|e| e.name.as_str()).collect();
    assert_eq!(names, vec!["MidnightPad", "Big", "small"]);
}

#[test]
fn categories_of_file_entries() {
    let roots = vec![
        root("E:\\SteamLibrary\\steamapps\\common", vec![
            file("E:\\SteamLibrary\\steamapps\\common\\Hades\\Hades.exe", "Hades", "exe", 50_000_000),
            file("E:\\SteamLibrary\\steamapps\\common\\X\\Riot Client.exe", "Riot Client", "exe", 50_000_000),
        ]),
        root("C:\\Start", vec![
            file("C:\\Start\\Steam.lnk", "Steam", "lnk", 1),
            file("C:\\Start\\Notes.lnk", "Notes", "lnk", 1),
            file("C:\\Start\\XboxApp.lnk", "Xbox App", "lnk", 1),
        ]),
    ];
    let cat = scan_all(&Vec::new(), &roots);
    let got: Vec<(&str, Option<Category>)> = cat.iter().map(|e| (e.name.as_str(), e.category)).collect();
    assert_eq!(
        got,
        vec![
            ("Hades", Some(Category::Game)),
            ("Riot Client", Some(Category::Launcher)),
            ("Steam", Some(Category::Launcher)),
            ("Notes", None),
            ("Xbox App", Some(Category::Game)),
        ]
    );
    assert_eq!(Category::Launcher.as_str(), "launcher");
    assert_eq!(Category::Game.as_str(), "game");
}

#[test]
fn catalog_has_no_case_insensitive_duplicates() {
    let registry = vec![
        reg("Paint.exe", "C:\\paint.exe"),
        reg("PAINT", "C:\\other\\paint2.exe"),
        reg("Word", "C:\\PAINT.EXE"),
        reg("Uninstall Foo", "C:\\u.exe"),
        reg("Word", "C:\\word.exe"),
    ];
    let cat = scan_all(&registry, &Vec::new());
    let got: Vec<(&str, &str)> = cat.iter().map(|e| (e.name.as_str(), e.path.as_str())).collect();
    assert_eq!(got, vec![("Paint", "C:\\paint.exe"), ("Word", "C:\\word.exe")]);
    for i in 0..cat.len() {
        for j in (i + 1)..cat.len() {
            assert_ne!(cat[i].path.to_lowercase(), cat[j].path.to_lowercase());
            assert_ne!(cat[i].name.to_lowercase(), cat[j].name.to_lowercase());
        }
    }
}

#[test]
fn builder_keeps_registry_fields() {
    let mut b = CatalogBuilder::new();
    let e = AppEntry {
        name: "  Foo_x64.exe ".to_string(),
        path: "C:\\foo.exe".to_string(),
        icon: Some("icon".to_string()),
        category: None,
    };
    b.add_registry_entry(&e);
    b.add_walked_file(true, &file("C:\\games\\Foo.lnk", "Foo", "lnk", 1));
    b.add_walked_file(true, &file("C:\\games\\Bar.lnk", "Bar", "lnk", 1));
    let v = b.into_entries();
    assert_eq!(v.len(), 2);
    assert_eq!(v[0].name, "Foo");
    assert_eq!(v[0].icon, Some("icon".to_string()));
    assert_eq!(v[1].name, "Bar");
    assert_eq!(v[1].category, Some(Category::Game));
}

#[test]
fn game_library_roots() {
    assert!(is_game_library("D:\\XboxGames"));
    assert!(is_game_library("C:\\Program Files (x86)\\Steam\\steamapps\\common"));
    assert!(is_game_library("E:\\GOG GAMES"));
    assert!(!is_game_library("C:\\ProgramData\\Microsoft\\Windows\\Start Menu\\Programs"));
}

#[test]
fn drive_listing_is_parsed() {
    let out = "Name  \r\nC:    \r\nD:    \r\n\r\n  \r\n";
    assert_eq!(parse_drive_list(out), vec!["C:\\", "D:\\"]);
    assert_eq!(parse_drive_list("Name\nE:"), vec!["E:\\"]);
    assert!(parse_drive_list("").is_empty());
    assert!(parse_drive_list("C:").is_empty());
}

#[test]
fn game_library_folders() {
    let v = game_library_subpaths();
    assert_eq!(v.len(), 7);
    assert_eq!(v[0], "Games");
    assert_eq!(v[6], "Program Files (x86)/Steam/steamapps/common");
}

#[test]
fn launcher_state_holds_the_catalog() {
    use_state(nexus_launcher::catalog::LauncherState::new(vec![reg("A", "C:\\a.exe")]));
}

fn use_state(state: nexus_launcher::catalog::LauncherState) {
    assert_eq!(state._apps.len(), 1);
    assert_eq!(state._apps[0].name, "A");
}
