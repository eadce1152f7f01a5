use raytracer::protocol::{
    format_result_line, format_task_line, read_console_line, read_result_line, read_server_line,
    ConsoleCommand, ResultReply, ServerMessage, TaskHeader,
};

#[test]
fn task_line_format() {
    let h = TaskHeader { task_id: 3, start_row: 10, end_row: 20, width: 640, height: 480 };
    assert_eq!(format_task_line(&h), "TASK 3 10 20 640 480\n");
}

#[test]
fn task_line_round_trip() {
    let h = TaskHeader { task_id: u32::MAX, start_row: 0, end_row: 7, width: 1, height: 99 };
    let line = format_task_line(&h);
    match read_server_line(&line) {
        ServerMessage::Task(back) => assert_eq!(back, h),
        other => panic!("unexpected {other:?}"),
    }
}

#[test]
fn server_line_with_bad_numbers_reads_zero() {
    match read_server_line("  TASK x 1 2 3 4  ") {
        ServerMessage::Task(h) => {
            assert_eq!(h, TaskHeader { task_id: 0, start_row: 1, end_row: 2, width: 3, height: 4 })
        }
        other => panic!("unexpected {other:?}"),
    }
}

#[test]
fn server_line_malformed_task() {
    assert!(matches!(read_server_line("TASK 1 2 3\n"), ServerMessage::MalformedTask));
    assert!(matches!(read_server_line("TASKS 1 2 3 4 5 6\n"), ServerMessage::MalformedTask));
}

#[test]
fn server_line_shutdown_and_unknown() {
    assert!(matches!(read_server_line("SHUTDOWN\n"), ServerMessage::Shutdown));
    match read_server_line("  hello there \n") {
        ServerMessage::Unknown(t) => assert_eq!(t, "hello there"),
        other => panic!("unexpected {other:?}"),
    }
}

#[test]
fn result_line_format_and_round_trip() {
    let line = format_result_line(2, 300);
    assert_eq!(line, "RESULT 2 300\n");
    assert_eq!(read_result_line(&line), ResultReply::Payload { task_id: 2, byte_len: 300 });
    assert_eq!(read_result_line(&format_result_line(5, 0)), ResultReply::Empty { task_id: 5 });
}

#[test]
fn result_line_invalid() {
    assert_eq!(read_result_line("RESULT 1\n"), ResultReply::Invalid);
    assert_eq!(read_result_line("RESULTS 1 2\n"), ResultReply::Invalid);
    assert_eq!(read_result_line(""), ResultReply::Invalid);
    assert_eq!(read_result_line("RESULT x 9"), ResultReply::Payload { task_id: 0, byte_len: 9 });
}

#[test]
fn console_commands() {
    assert!(matches!(read_console_line(" clients\n"), ConsoleCommand::Clients));
    assert!(matches!(read_console_line("start"), ConsoleCommand::Start));
    assert!(matches!(read_console_line("quit"), ConsoleCommand::Quit));
    assert!(matches!(read_console_line("exit\n"), ConsoleCommand::Quit));
    assert!(matches!(read_console_line("   "), ConsoleCommand::Blank));
    match read_console_line(" render now ") {
        ConsoleCommand::Unknown(c) => assert_eq!(c, "render now"),
        other => panic!("unexpected {other:?}"),
    }
}

#[test]
fn shutdown_line_is_read_as_shutdown() {
    let line = raytracer::protocol::format_shutdown_line();
    assert_eq!(line, "SHUTDOWN\n");
    assert!(matches!(read_server_line(&line), ServerMessage::Shutdown));
}
