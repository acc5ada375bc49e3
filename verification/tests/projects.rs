use koharu_rpc::project::{
    split_file_name, validate_project_name, LibraryEntry, Project, ProjectLibrary,
    ProjectNameError,
};

fn entry(name: &str, is_dir: bool, has_state_file: bool) -> LibraryEntry {
    LibraryEntry { file_name: name.to_string(), is_dir, has_state_file }
}

#[test]
fn project_names_are_trimmed() {
    assert_eq!(validate_project_name("  My Project \t").unwrap(), "My Project");
    assert_eq!(validate_project_name("\u{3000}漫画\u{2003}").unwrap(), "漫画");
}

#[test]
fn empty_project_names_are_refused() {
    assert_eq!(validate_project_name("").unwrap_err(), ProjectNameError::Empty);
    assert_eq!(validate_project_name(" \n\t ").unwrap_err(), ProjectNameError::Empty);
    assert_eq!(ProjectNameError::Empty.message(), "project name cannot be empty");
}

#[test]
fn unusable_characters_are_refused() {
    for name in ["a/b", "a\\b", "a:b", "what?", "star*", "x<y", "x>y", "pipe|", "quote\"", "bell\u{7}", "c1\u{85}x"] {
        assert_eq!(
            validate_project_name(name).unwrap_err(),
            ProjectNameError::UnusableCharacters,
            "{name:?}"
        );
    }
    assert_eq!(validate_project_name("name.").unwrap_err(), ProjectNameError::UnusableCharacters);
    assert_eq!(
        ProjectNameError::UnusableCharacters.message(),
        "project name contains characters that cannot be used in a file name"
    );
}

#[test]
fn trailing_space_before_trim_is_fine() {
    assert_eq!(validate_project_name("name ").unwrap(), "name");
}

#[test]
fn windows_device_names_are_refused() {
    for name in ["CON", "con", "Prn", "aux.txt", "nul.tar.gz", "COM1", "com9.x", "LPT5", "lpt1"] {
        assert_eq!(validate_project_name(name).unwrap_err(), ProjectNameError::Reserved, "{name:?}");
    }
    for name in ["COM0", "COM10", "CONSOLE", "LPT", "xcon", "com1a"] {
        assert_eq!(validate_project_name(name).unwrap(), name);
    }
    assert_eq!(ProjectNameError::Reserved.message(), "project name is reserved by Windows");
}

#[test]
fn validation_is_idempotent_on_examples() {
    for name in ["  chapter 1 ", "one.two", "ÉTÉ"] {
        let once = validate_project_name(name).unwrap();
        assert_eq!(validate_project_name(&once).unwrap(), once);
    }
}

#[test]
fn resolve_places_projects_under_the_root() {
    let library = ProjectLibrary::new("/data/projects".to_string());
    let (name, path) = library.resolve(" Vol 1 ").unwrap();
    assert_eq!(name, "Vol 1");
    assert_eq!(path, "/data/projects/Vol 1.khrproj");
    let library = ProjectLibrary::new("/data/".to_string());
    assert_eq!(library.resolve("a").unwrap().1, "/data/a.khrproj");
    let library = ProjectLibrary::new(String::new());
    assert_eq!(library.resolve("a").unwrap().1, "a.khrproj");
    assert!(library.resolve("a/b").is_err());
}

#[test]
fn file_names_split_like_paths() {
    assert_eq!(split_file_name("book.khrproj"), ("book", Some("khrproj")));
    assert_eq!(split_file_name("a.b.c"), ("a.b", Some("c")));
    assert_eq!(split_file_name(".khrproj"), (".khrproj", None));
    assert_eq!(split_file_name("plain"), ("plain", None));
    assert_eq!(split_file_name("trailing."), ("trailing", Some("")));
    assert_eq!(split_file_name(".."), ("..", None));
}

#[test]
fn listing_keeps_projects_sorted_case_insensitively() {
    let library = ProjectLibrary::new("/root".to_string());
    let entries = vec![
        entry("Zeta.khrproj", true, true),
        entry("Alpha.KHRPROJ", true, true),
        entry("beta.khrproj", true, true),
        entry("no-state.khrproj", true, false),
        entry("file.khrproj", false, true),
        entry(".khrproj", true, true),
        entry("other.zip", true, true),
        entry("gamma", true, true),
    ];
    let names: Vec<String> = library.list(entries).into_iter().map(|p| p.name).collect();
    assert_eq!(names, vec!["Alpha", "beta", "Zeta"]);
}

#[test]
fn created_projects_are_listed_under_their_name() {
    let library = ProjectLibrary::new("/root".to_string());
    let (name, path) = library.resolve("My Book").unwrap();
    let file_name = path.rsplit('/').next().unwrap().to_string();
    let listed = library.list(vec![entry(&file_name, true, true)]);
    assert_eq!(listed.len(), 1);
    assert_eq!(listed[0].name, name);
}

#[test]
fn recording_steps_feeds_undo_and_clears_redo() {
    let mut project: Project<&str, u64> = Project::new("p".to_string(), &vec!["page-a", "page-b"]);
    assert_eq!(project.active_page, Some("page-a"));
    project.redo.push(vec![9]);
    project.record(vec![]);
    assert!(project.undo.is_empty());
    assert_eq!(project.redo, vec![vec![9]]);
    project.record(vec![3, 4]);
    assert_eq!(project.undo, vec![vec![3, 4]]);
    assert!(project.redo.is_empty());
}

#[test]
fn importing_selects_the_first_page() {
    let mut project: Project<u32, u64> = Project::new("p".to_string(), &vec![]);
    assert_eq!(project.active_page, None);
    project.after_import(7, &vec![11, 12]);
    assert_eq!(project.active_page, Some(11));
    assert_eq!(project.undo, vec![vec![7]]);
}
