use lightcore::storage::{load_save_file, save_file_path, write_save_file, Platform, SaveEnv};

fn env(platform: Platform) -> SaveEnv {
    SaveEnv {
        platform,
        appdata: Some("C:\\Users\\p\\AppData\\Roaming".to_string()),
        home: Some("/home/p".to_string()),
        xdg_data_home: None,
        current_dir: Some("/work".to_string()),
    }
}

#[test]
fn save_paths_follow_the_platform() {
    assert_eq!(save_file_path("run.txt", &env(Platform::OtherUnix)), vec!["/home/p", ".local", "share", "lightcore", "run.txt"]);
    let mut e = env(Platform::OtherUnix);
    e.xdg_data_home = Some("/data".to_string());
    assert_eq!(save_file_path("run.txt", &e), vec!["/data", "lightcore", "run.txt"]);
    assert_eq!(
        save_file_path("campaign.txt", &env(Platform::MacOs)),
        vec!["/home/p", "Library", "Application Support", "Lightcore", "campaign.txt"]
    );
    assert_eq!(
        save_file_path("run.txt", &env(Platform::Windows)),
        vec!["C:\\Users\\p\\AppData\\Roaming", "Lightcore", "run.txt"]
    );
    assert_eq!(
        save_file_path("run.txt", &env(Platform::Android)),
        vec!["/data/data/com.uneven3.lightcore/files", "run.txt"]
    );
    let mut bare = env(Platform::OtherUnix);
    bare.home = None;
    assert_eq!(save_file_path("run.txt", &bare), vec!["/work", "lightcore_run.txt"]);
    bare.current_dir = None;
    assert_eq!(save_file_path("run.txt", &bare), vec![".", "lightcore_run.txt"]);
}

#[test]
fn a_save_creates_its_directory_first() {
    let w = write_save_file("campaign.txt", "x", &env(Platform::OtherUnix));
    assert_eq!(w.dir, vec!["/home/p", ".local", "share", "lightcore"]);
    assert_eq!(w.path, vec!["/home/p", ".local", "share", "lightcore", "campaign.txt"]);
    assert_eq!(w.contents, "x");
}

#[test]
fn a_failed_read_is_no_save() {
    assert_eq!(load_save_file(Ok("abc".to_string())), Some("abc".to_string()));
    assert_eq!(load_save_file(Err("missing".to_string())), None);
}
