use filebatch::FileEntry;
use filebatch::WriteStep;
use filebatch::create_failure_message;
use filebatch::directory_failure_message;
use filebatch::write_failure_message;
use filebatch::write_plan;

fn entry(relative_path: &str, contents: &str) -> FileEntry {
    FileEntry { relative_path: relative_path.to_string(), contents: contents.to_string() }
}

#[test]
fn plan_for_one_nested_file() {
    let steps = write_plan("/tmp/proj", &vec![entry("src/main.txt", "hello")]);
    assert_eq!(
        steps,
        vec![
            WriteStep::CreateDir { path: "/tmp/proj/src".to_string() },
            WriteStep::WriteFile {
                path: "/tmp/proj/src/main.txt".to_string(),
                contents: "hello".to_string(),
            },
        ]
    );
}

#[test]
fn plan_keeps_input_order() {
    let steps = write_plan("/base", &vec![entry("a.txt", "first"), entry("b/c.txt", "second")]);
    assert_eq!(
        steps,
        vec![
            WriteStep::CreateDir { path: "/base".to_string() },
            WriteStep::WriteFile { path: "/base/a.txt".to_string(), contents: "first".to_string() },
            WriteStep::CreateDir { path: "/base/b".to_string() },
            WriteStep::WriteFile {
                path: "/base/b/c.txt".to_string(),
                contents: "second".to_string(),
            },
        ]
    );
}

#[test]
fn plan_writes_duplicate_paths_in_order() {
    let steps = write_plan("/base", &vec![entry("same.txt", "early"), entry("same.txt", "late")]);
    assert_eq!(
        steps,
        vec![
            WriteStep::CreateDir { path: "/base".to_string() },
            WriteStep::WriteFile { path: "/base/same.txt".to_string(), contents: "early".to_string() },
            WriteStep::CreateDir { path: "/base".to_string() },
            WriteStep::WriteFile { path: "/base/same.txt".to_string(), contents: "late".to_string() },
        ]
    );
}

#[test]
fn plan_honors_escaping_paths() {
    let steps = write_plan("/base", &vec![entry("../escape.txt", "out")]);
    assert_eq!(
        steps,
        vec![
            WriteStep::CreateDir { path: "/base/..".to_string() },
            WriteStep::WriteFile {
                path: "/base/../escape.txt".to_string(),
                contents: "out".to_string(),
            },
        ]
    );
}

#[test]
fn plan_for_empty_batch_is_empty() {
    let steps = write_plan("/base", &Vec::new());
    assert!(steps.is_empty());
}

#[test]
fn plan_skips_directory_step_without_parent() {
    let steps = write_plan("/", &vec![entry("", "x")]);
    assert_eq!(
        steps,
        vec![WriteStep::WriteFile { path: "/".to_string(), contents: "x".to_string() }]
    );
}

#[test]
fn directory_failure_message_names_path_and_cause() {
    assert_eq!(
        directory_failure_message("/tmp/x", "permission denied"),
        "Failed to create directory \"/tmp/x\": permission denied"
    );
}

#[test]
fn create_failure_message_names_path_and_cause() {
    assert_eq!(
        create_failure_message("/tmp/x/a.txt", "permission denied"),
        "Failed to create file \"/tmp/x/a.txt\": permission denied"
    );
}

#[test]
fn write_failure_message_names_path_and_cause() {
    assert_eq!(
        write_failure_message("/tmp/x/a.txt", "disk full"),
        "Failed to write file \"/tmp/x/a.txt\": disk full"
    );
}

#[test]
fn first_failing_step_yields_its_message() {
    let steps = write_plan("/locked", &vec![entry("a.txt", "data")]);
    let mut report: Result<(), String> = Ok(());
    for step in &steps {
        match step {
            WriteStep::CreateDir { path } => {
                report = Err(directory_failure_message(path, "permission denied"));
                break;
            }
            WriteStep::WriteFile { .. } => unreachable!("the batch stops at the first failure"),
        }
    }
    assert_eq!(
        report,
        Err("Failed to create directory \"/locked\": permission denied".to_string())
    );
}
