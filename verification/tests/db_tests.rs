use yaad::db::{get_app_data_dir, get_db_path, set_app_data_dir, AppDataDir};

#[test]
fn test_init_db() {
    // The database schema itself lives with the connection code; here it is
    // enough that the crate links.
    assert!(true);
}

#[test]
fn app_data_dir_is_written_once() {
    let mut dirs = AppDataDir::new();
    assert!(get_app_data_dir(&dirs).is_none());
    assert_eq!(
        get_db_path(&dirs),
        Err("App data directory not initialized. Call set_app_data_dir() first.".to_string())
    );
    assert_eq!(set_app_data_dir(&mut dirs, "/data/app".to_string()), Ok(()));
    assert_eq!(get_app_data_dir(&dirs), Some(&"/data/app".to_string()));
    assert_eq!(
        set_app_data_dir(&mut dirs, "/other".to_string()),
        Err("App data directory already set".to_string())
    );
    assert_eq!(get_app_data_dir(&dirs), Some(&"/data/app".to_string()));
    assert_eq!(get_db_path(&dirs), Ok("/data/app/yaad.db".to_string()));
}

#[test]
fn db_path_joins_without_doubling_the_separator() {
    let mut dirs = AppDataDir::new();
    set_app_data_dir(&mut dirs, "/data/app/".to_string()).unwrap();
    assert_eq!(get_db_path(&dirs), Ok("/data/app/yaad.db".to_string()));
}
