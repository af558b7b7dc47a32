use startapp::config::startapp_dir_name;
use startapp::error::AppError;
use startapp::launch::{join_path, launch_command, launch_outcome, SpawnOutcome};

#[test]
fn join_path_doubles_the_separator() {
    let p = join_path("C:\\apps\\startapp", "Notepad.lnk");
    assert_eq!(p, "C:\\apps\\startapp\\\\Notepad.lnk");
}

#[test]
fn launch_command_opens_through_the_interpreter() {
    let c = launch_command("C:\\apps\\startapp", "Notepad.lnk");
    assert_eq!(c.program, "cmd");
    assert_eq!(
        c.args,
        vec![
            "/C".to_string(),
            "start".to_string(),
            String::new(),
            "C:\\apps\\startapp\\\\Notepad.lnk".to_string(),
        ]
    );
}

#[test]
fn absent_entry_is_still_handed_to_the_interpreter() {
    // No existence check stands between the name and the spawn: a name that
    // no listing returned still yields a complete command, and the
    // interpreter's own failure comes back as a captured status, not as an
    // error of the launcher.
    let c = launch_command("C:\\apps\\startapp", "NoSuchEntry.lnk");
    assert_eq!(c.args[3], "C:\\apps\\startapp\\\\NoSuchEntry.lnk");

    let r = launch_outcome(SpawnOutcome::Spawned {
        exit_code: Some(1),
        stdout: Vec::new(),
        stderr: b"The system cannot find the file specified.".to_vec(),
    })
    .unwrap();
    assert_eq!(r.exit_code, Some(1));
    assert_eq!(r.stderr, b"The system cannot find the file specified.".to_vec());
}

#[test]
fn scenario_launch_captures_exit_status() {
    let c = launch_command("C:\\apps\\startapp", "Notepad.lnk");
    assert_eq!(c.program, "cmd");
    let r = launch_outcome(SpawnOutcome::Spawned {
        exit_code: Some(0),
        stdout: Vec::new(),
        stderr: Vec::new(),
    })
    .unwrap();
    assert_eq!(r.exit_code, Some(0));
    assert_eq!(r.stdout, Vec::<u8>::new());
    assert_eq!(r.stderr, Vec::<u8>::new());
}

#[test]
fn nonzero_exit_is_not_an_error() {
    let r = launch_outcome(SpawnOutcome::Spawned {
        exit_code: Some(3),
        stdout: b"out".to_vec(),
        stderr: b"err".to_vec(),
    });
    let lr = r.unwrap();
    assert_eq!(lr.exit_code, Some(3));
    assert_eq!(lr.stdout, b"out".to_vec());
    assert_eq!(lr.stderr, b"err".to_vec());
}

#[test]
fn missing_exit_code_is_captured_as_none() {
    let r = launch_outcome(SpawnOutcome::Spawned {
        exit_code: None,
        stdout: Vec::new(),
        stderr: Vec::new(),
    })
    .unwrap();
    assert_eq!(r.exit_code, None);
}

#[test]
fn failed_spawn_is_a_process_spawn_error() {
    let r = launch_outcome(SpawnOutcome::SpawnFailed("interpreter not found".to_string()));
    assert!(matches!(r, Err(AppError::ProcessSpawnError(m)) if m == "interpreter not found"));
}

#[test]
fn error_descriptions() {
    assert_eq!(
        AppError::ConfigurationMissing.describe(),
        "configuration error: the base directory is absent or not a directory"
    );
    assert_eq!(
        AppError::EncodingError.describe(),
        "encoding error: a directory entry name is not valid text"
    );
    assert_eq!(
        AppError::IOError("disk gone".to_string()).describe(),
        "io error: disk gone"
    );
    assert_eq!(
        AppError::ProcessSpawnError("no cmd".to_string()).describe(),
        "process spawn error: no cmd"
    );
}

#[test]
fn base_directory_subfolder_name() {
    assert_eq!(startapp_dir_name(), "startapp");
}
