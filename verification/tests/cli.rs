use isekai::cli::{
    command_candidates, completion_start, disk_candidates, disk_row, disk_table_header, flag_candidates,
    partition_candidates, partition_row, partition_table_header, plan_completion, show_id, split_whitespace,
    table_rule, Candidate, CliREPL, Commands, CompletionQuery, IsekaiCli, ReplInput, RunMode,
};
use isekai::models::{BitLockerState, Disk, Partition};

fn disk(id: &str, name: &str) -> Disk {
    Disk { stable_id: id.to_string(), name: name.to_string(), total_gb: 476, free_gb: 0, is_system_drive: true, is_gpt: true }
}

fn part(id: &str, letter: Option<&str>) -> Partition {
    Partition {
        id: id.to_string(),
        drive_letter: letter.map(|l| l.to_string()),
        size_gb: 100,
        file_system: "NTFS".to_string(),
        label: String::new(),
        offset_bytes: 0,
        size_bytes: 3 * 1024 * 1024 + 5,
        free_bytes: 0,
        bitlocker_state: BitLockerState::Unprotected,
    }
}

fn names(c: &[Candidate]) -> Vec<String> {
    c.iter().map(|x| x.display.clone()).collect()
}

#[test]
fn run_modes() {
    let mut cli = IsekaiCli { debug: false, cli: false, command: None };
    assert!(cli.is_daemon());
    assert_eq!(cli.run_mode(), RunMode::Daemon);
    cli.cli = true;
    assert!(!cli.is_daemon());
    assert_eq!(cli.run_mode(), RunMode::Interactive);
    cli.command = Some(Commands::List);
    assert_eq!(cli.run_mode(), RunMode::OneShot);
}

#[test]
fn exit_commands() {
    assert!(CliREPL::<()>::command_exits(&Commands::Exit));
    assert!(CliREPL::<()>::command_exits(&Commands::Quit));
    assert!(!CliREPL::<()>::command_exits(&Commands::Parts { disk_id: "0".to_string() }));
    let repl = CliREPL::new(3u32);
    assert_eq!(repl.disk_manager, 3);
}

#[test]
fn reading_lines() {
    assert_eq!(CliREPL::<()>::read_line("   "), ReplInput::Blank);
    assert_eq!(
        CliREPL::<()>::read_line("  parts 'disk 0' "),
        ReplInput::Args(vec!["isekai".to_string(), "parts".to_string(), "disk 0".to_string()])
    );
    assert_eq!(CliREPL::<()>::read_line("parts \"unterminated"), ReplInput::Invalid);
}

#[test]
fn whitespace_split() {
    assert_eq!(split_whitespace("  a  bc\td "), vec!["a", "bc", "d"]);
    assert!(split_whitespace("   ").is_empty());
}

#[test]
fn completes_command_names() {
    let plan = plan_completion("sh");
    assert_eq!(plan.query, CompletionQuery::Commands);
    assert_eq!(plan.word, "sh");
    assert_eq!(names(&command_candidates(&plan.word)), vec!["shrink-and-install"]);
    assert_eq!(completion_start(2, &plan), 0);
    assert_eq!(command_candidates("").len(), 6);
    assert_eq!(plan_completion("  ").query, CompletionQuery::Commands);
}

#[test]
fn completes_disks_for_parts() {
    let plan = plan_completion("parts ");
    assert_eq!(plan.query, CompletionQuery::Disks);
    assert_eq!(plan.word, "");
    let disks = vec![disk("0", "Samsung"), disk("10", "WD"), disk("2", "USB")];
    let c = disk_candidates(&disks, "");
    assert_eq!(names(&c), vec!["0 (Samsung)", "10 (WD)", "2 (USB)"]);
    let c = disk_candidates(&disks, "1");
    assert_eq!(c, vec![Candidate { display: "10 (WD)".to_string(), replacement: "10".to_string() }]);
    assert_eq!(plan_completion("parts 1").query, CompletionQuery::Disks);
    assert_eq!(plan_completion("parts 1 ").query, CompletionQuery::Nothing);
}

#[test]
fn completes_shrink_options() {
    assert_eq!(plan_completion("shrink-and-install --disk-id ").query, CompletionQuery::Disks);
    assert_eq!(plan_completion("shrink-and-install --disk-id 0").query, CompletionQuery::Disks);
    assert_eq!(
        plan_completion("shrink-and-install --disk-id 0 --partition-id ").query,
        CompletionQuery::Partitions("0".to_string())
    );
    assert_eq!(plan_completion("shrink-and-install --partition-id ").query, CompletionQuery::Nothing);
    let flags = plan_completion("shrink-and-install --i");
    assert_eq!(flags.query, CompletionQuery::Flags);
    assert_eq!(names(&flag_candidates(&flags.word)), vec!["--iso-path"]);
    let other = plan_completion("shrink-and-install foo");
    assert_eq!(other.query, CompletionQuery::Nothing);
    assert!(!other.replaces_word);
    assert_eq!(completion_start(22, &other), 22);
    assert_eq!(plan_completion("list x").query, CompletionQuery::Nothing);
}

#[test]
fn partition_candidates_show_size_and_fs() {
    let parts = vec![part("1", None), part("12", Some("C:")), part("3", None)];
    let c = partition_candidates(&parts, "1");
    assert_eq!(names(&c), vec!["1 (3MB NTFS)", "12 (3MB NTFS)"]);
    assert_eq!(c[1].replacement, "12");
}

#[test]
fn completion_start_counts_bytes() {
    let plan = plan_completion("parts é");
    assert_eq!(completion_start(8, &plan), 6);
}

#[test]
fn long_ids_are_cut() {
    assert_eq!(show_id("short").as_deref(), Some("short"));
    let long = "a".repeat(40);
    assert_eq!(show_id(&long), Some(format!("{}...", "a".repeat(35))));
    let exact = "b".repeat(38);
    assert_eq!(show_id(&exact).as_deref(), Some(exact.as_str()));
    let awkward = format!("{}é{}", "a".repeat(34), "a".repeat(10));
    assert_eq!(show_id(&awkward), None);
}

#[test]
fn table_lines() {
    assert_eq!(table_rule(), "-".repeat(85));
    assert_eq!(
        disk_table_header(),
        format!("{:<40} | {:<20} | {:<10} | {:<5}", "Stable ID", "Name", "Size (GB)", "Sys")
    );
    assert_eq!(
        disk_row(&disk("0", "Samsung SSD 980 PRO 1TB NVMe")).unwrap(),
        format!("{:<40} | {:<20} | {:<10} | {:<5}", "0", "Samsung SSD 980 PRO ", 476, "*")
    );
    assert_eq!(
        partition_table_header(),
        format!("{:<40} | {:<10} | {:<10} | {:<10}", "ID", "Mount", "Size (GB)", "FS")
    );
    assert_eq!(
        partition_row(&part("3", None)).unwrap(),
        format!("{:<40} | {:<10} | {:<10} | {:<10}", "3", "-", 100, "NTFS")
    );
}
