use prettyget::schedule::{
    clean_name, create_schedule, delete_schedule, list_schedules_args, parse_csv_line,
    parse_schedules, run_schedule_now, schtasks_outcome,
};

fn csv(line: &str) -> Vec<String> {
    parse_csv_line(line)
}

#[test]
fn creates_tasks_with_prefix() {
    let c = create_schedule("My nightly!", "weekly", "03:30").unwrap();
    assert_eq!(c.args[0], "/Create");
    assert_eq!(c.args[2], "PrettyGet_Mynightly");
    assert_eq!(c.args[6], "WEEKLY");
    assert_eq!(c.args[8], "03:30");
    assert_eq!(c.args.len(), 10);
    assert_eq!(c.success_message, "Tarea «Mynightly» programada (weekly a las 03:30).");
    assert_eq!(create_schedule("!!", "daily", "01:00").unwrap_err(), "El nombre no puede estar vacío.");
    assert_eq!(create_schedule("x", "hourly", "01:00").unwrap_err(), "Frecuencia no válida: hourly");
    assert_eq!(clean_name("día-1_ok?"), "día-1_ok");
}

#[test]
fn delete_and_run_now() {
    let d = delete_schedule("nightly");
    assert_eq!(d.args, vec!["/Delete", "/TN", "PrettyGet_nightly", "/F"]);
    assert_eq!(d.success_message, "Tarea «nightly» eliminada.");
    let r = run_schedule_now("nightly");
    assert_eq!(r.args, vec!["/Run", "/TN", "PrettyGet_nightly"]);
    assert_eq!(r.success_message, "Ejecutando «nightly» ahora.");
    assert_eq!(schtasks_outcome(&r, true, b"").unwrap(), "Ejecutando «nightly» ahora.");
    assert_eq!(schtasks_outcome(&r, false, b" denied \r\n").unwrap_err(), "denied");
    assert_eq!(list_schedules_args(), vec!["/Query", "/FO", "CSV", "/V", "/NH"]);
}

#[test]
fn csv_fields() {
    assert_eq!(csv("\"a\",\"b, c\", d ,\"say \"\"hi\"\"\""), vec!["a", "b, c", "d", "say \"hi\""]);
    assert_eq!(csv(""), vec![""]);
    assert_eq!(csv("a,,b"), vec!["a", "", "b"]);
}

#[test]
fn lists_only_own_tasks() {
    let out = "\"PC\",\"\\PrettyGet_nightly\",\"5/1/2024 3:00:00 AM\",\"Ready\",\"x\",\"x\",\"x\",\"x\",\"Weekly\",\"3:00:00 AM\"\r\n\"PC\",\"\\Other\",\"N/A\",\"Ready\"\r\n\"PC\",\"\\PrettyGet_PrettyGet_x\",\"N/A\",\"Disabled\"\r\n";
    let tasks = parse_schedules(out.as_bytes());
    assert_eq!(tasks.len(), 2);
    assert_eq!(tasks[0].name, "nightly");
    assert_eq!(tasks[0].next_run, "5/1/2024 3:00:00 AM");
    assert_eq!(tasks[0].status, "Ready");
    assert_eq!(tasks[0].frequency, "Weekly");
    assert_eq!(tasks[0].time, "3:00:00 AM");
    assert_eq!(tasks[1].name, "x");
    assert_eq!(tasks[1].frequency, "");
}

#[test]
fn created_task_is_listed_under_its_name() {
    let c = create_schedule("weekly-run", "daily", "02:00").unwrap();
    let line = format!("\"PC\",\"\\{}\",\"N/A\",\"Ready\"", c.args[2]);
    let tasks = parse_schedules(line.as_bytes());
    assert_eq!(tasks.len(), 1);
    assert_eq!(tasks[0].name, "weekly-run");
}

#[test]
fn quoted_fields_read_back() {
    let fields = vec!["PC".to_string(), "\\PrettyGet_a".to_string(), "say \"hi\", bye".to_string(), "".to_string()];
    let line = fields
        .iter()
        .map(|f| format!("\"{}\"", f.replace('"', "\"\"")))
        .collect::<Vec<_>>()
        .join(",");
    assert_eq!(parse_csv_line(&line), fields);
    assert_eq!(parse_csv_line("").len(), 1);
}
