use ridi_router::output_dir::{
    next_output_dir_action, OutputDirAction, OutputDirEvent, OutputDirInvalid, OutputDirProblem,
};

/// A file system as the steps see it: whether the path exists, is a
/// directory, has an entry, and whether creating it works.
struct Disk {
    exists: bool,
    is_dir: bool,
    has_entry: bool,
    can_create: bool,
}

fn run(disk: &Disk) -> (Vec<&'static str>, Result<(), OutputDirProblem>) {
    let mut steps = Vec::new();
    let mut event = OutputDirEvent::Started;
    loop {
        event = match next_output_dir_action(event) {
            OutputDirAction::CheckExists => {
                steps.push("exists");
                OutputDirEvent::Exists(disk.exists)
            }
            OutputDirAction::ReadMetadata => {
                steps.push("metadata");
                OutputDirEvent::Metadata(Ok(disk.is_dir))
            }
            OutputDirAction::OpenListing => {
                steps.push("list");
                OutputDirEvent::Listing(Ok(()))
            }
            OutputDirAction::ReadFirstEntry => {
                steps.push("first");
                OutputDirEvent::FirstEntry(Ok(disk.has_entry))
            }
            OutputDirAction::CreateAll => {
                steps.push("create");
                OutputDirEvent::Created(disk.can_create)
            }
            OutputDirAction::Finish(outcome) => return (steps, outcome),
        };
    }
}

#[test]
fn missing_output_dir_is_created() {
    let disk = Disk { exists: false, is_dir: false, has_entry: false, can_create: true };
    assert_eq!(run(&disk), (vec!["exists", "create"], Ok(())));
    let disk = Disk { can_create: false, ..disk };
    assert_eq!(run(&disk), (vec!["exists", "create"], Err(OutputDirProblem::Create)));
}

#[test]
fn existing_empty_output_dir_is_reused() {
    let disk = Disk { exists: true, is_dir: true, has_entry: false, can_create: false };
    assert_eq!(run(&disk), (vec!["exists", "metadata", "list", "first"], Ok(())));
}

#[test]
fn non_empty_output_dir_is_refused() {
    let disk = Disk { exists: true, is_dir: true, has_entry: true, can_create: true };
    assert_eq!(run(&disk), (vec!["exists", "metadata", "list", "first"], Err(OutputDirProblem::NotEmpty)));
}

#[test]
fn output_path_that_is_a_file_is_invalid() {
    let disk = Disk { exists: true, is_dir: false, has_entry: false, can_create: true };
    assert_eq!(
        run(&disk),
        (vec!["exists", "metadata"], Err(OutputDirProblem::Invalid(OutputDirInvalid::NotADirectory)))
    );
}

#[test]
fn file_system_errors_are_reported_as_invalid() {
    assert_eq!(
        next_output_dir_action(OutputDirEvent::Metadata(Err("denied".to_string()))),
        OutputDirAction::Finish(Err(OutputDirProblem::Invalid(OutputDirInvalid::MetadataUnreadable(
            "denied".to_string()
        ))))
    );
    assert_eq!(
        next_output_dir_action(OutputDirEvent::Listing(Err("gone".to_string()))),
        OutputDirAction::Finish(Err(OutputDirProblem::Invalid(OutputDirInvalid::DirectoryUnreadable(
            "gone".to_string()
        ))))
    );
    assert_eq!(
        next_output_dir_action(OutputDirEvent::FirstEntry(Err("io".to_string()))),
        OutputDirAction::Finish(Err(OutputDirProblem::Invalid(OutputDirInvalid::ContentsUnreadable(
            "io".to_string()
        ))))
    );
}
