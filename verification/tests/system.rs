use winbear::debugger::{
    continue_status, wait_timeout, DebugEvent, DebugEventInfo, DebugEventResponse,
    DebuggedProcesses, ExceptionContinuation, LoopAction, DBG_CONTINUE,
    DBG_EXCEPTION_NOT_HANDLED, INFINITE,
};
use winbear::execution_logger::{
    Command, Event, EventKind, ExecutionLogger, Observation,
};
use winbear::process::{
    image_name_step, process_parameters_address, read_u16, read_u64, EnvironmentBlock,
    ImageNameStep, ProcessCreator, ProcessParameters, UnicodeString, DEBUG_PROCESS,
    PARAMETERS_SIZE, PEB_SIZE,
};
use winbear::wmi::{WmiConnector, WBEM_FLAG_CONNECT_USE_MAX_WAIT};
use winbear::Run;

const CREATE: u32 = 3;
const EXIT: u32 = 5;

fn wide(text: &str) -> Vec<u16> {
    text.encode_utf16().collect()
}

fn command(program: &str) -> Command {
    Command {
        program: program.into(),
        arguments: vec![program.into(), "-c".into()],
        environment: EnvironmentBlock {
            data: wide("A=1\0PATH=C:\\bin\0\0"),
        },
        working_dir: "C:\\proj".into(),
    }
}

#[test]
fn event_codes_have_their_kinds() {
    let kinds = [
        DebugEventInfo::Unknown,
        DebugEventInfo::Exception,
        DebugEventInfo::CreateThread,
        DebugEventInfo::CreateProcess,
        DebugEventInfo::ExitThread,
        DebugEventInfo::ExitProcess,
        DebugEventInfo::LoadDLL,
        DebugEventInfo::UnloadDLL,
        DebugEventInfo::OutputDebugString,
        DebugEventInfo::RIP,
        DebugEventInfo::Unknown,
    ];
    for (code, kind) in kinds.iter().enumerate() {
        assert_eq!(*kind, DebugEventInfo::from_code(code as u32));
    }
    let event = DebugEvent::new(10, 20, CREATE);
    assert_eq!(10, event.process_id());
    assert_eq!(20, event.thread_id());
    assert_eq!(DebugEventInfo::CreateProcess, event.info());

    assert!(DebugEventInfo::CreateProcess.has_file_to_close(false));
    assert!(DebugEventInfo::LoadDLL.has_file_to_close(false));
    assert!(!DebugEventInfo::LoadDLL.has_file_to_close(true));
    assert!(!DebugEventInfo::ExitProcess.has_file_to_close(false));
}

#[test]
fn the_loop_tracks_the_attached_processes() {
    let mut attached = DebuggedProcesses::new();
    let create = |pid| DebugEvent::new(pid, 1, CREATE);
    let exit = |pid| DebugEvent::new(pid, 1, EXIT);

    assert!(attached.accepts(&create(4)));
    assert!(!attached.accepts(&exit(4)));
    attached.observe(&create(4));
    attached.observe(&create(8));
    attached.observe(&DebugEvent::new(4, 2, 6));
    assert!(attached.contains(4) && attached.contains(8));
    assert!(!attached.accepts(&create(4)));
    assert!(attached.accepts(&exit(4)));
    attached.observe(&create(6));
    attached.observe(&exit(8));
    assert!(!attached.contains(8));

    assert_eq!(
        LoopAction::Continue { status: DBG_CONTINUE },
        attached.react(DebugEventResponse::Continue(ExceptionContinuation::Handled))
    );
    assert_eq!(
        LoopAction::Continue { status: DBG_EXCEPTION_NOT_HANDLED },
        attached.react(DebugEventResponse::Continue(ExceptionContinuation::NotHandled))
    );
    match attached.react(DebugEventResponse::ExitDetach(ExceptionContinuation::NotHandled)) {
        LoopAction::Detach { status, mut processes } => {
            processes.sort();
            assert_eq!(DBG_EXCEPTION_NOT_HANDLED, status);
            assert_eq!(vec![4, 6], processes);
        }
        other => panic!("{:?}", other),
    }
    let mut listed = attached.attached();
    listed.sort();
    assert_eq!(vec![4, 6], listed);
    assert_eq!(LoopAction::Return, attached.react(DebugEventResponse::Exit));

    assert_eq!(0x0001_0002, continue_status(ExceptionContinuation::Handled));
    assert_eq!(0x8001_0001, continue_status(ExceptionContinuation::NotHandled));
    assert_eq!(INFINITE, wait_timeout(None));
    assert_eq!(250, wait_timeout(Some(250)));
}

#[test]
fn every_process_starts_once_and_stops_once() {
    let mut logger = ExecutionLogger::new();
    assert!(logger.is_done());
    let not_handled = DebugEventResponse::Continue(ExceptionContinuation::NotHandled);

    let response = logger.handle_event(
        &DebugEvent::new(100, 1, CREATE),
        Observation::Created(Some((command("make"), 1))),
        10,
    );
    assert_eq!(not_handled, response);
    let response = logger.handle_event(
        &DebugEvent::new(200, 1, CREATE),
        Observation::Created(Some((command("cc"), 100))),
        20,
    );
    assert_eq!(not_handled, response);
    // A process that could not be read is left out.
    let response = logger.handle_event(
        &DebugEvent::new(300, 1, CREATE),
        Observation::Created(None),
        25,
    );
    assert_eq!(not_handled, response);
    // Other events change nothing.
    assert_eq!(
        not_handled,
        logger.handle_event(&DebugEvent::new(200, 2, 6), Observation::Nothing, 26)
    );
    assert!(logger.is_live(100) && logger.is_live(200) && !logger.is_live(300));
    assert!(!logger.is_done());
    assert_eq!(2, logger.executions().len());

    assert_eq!(
        not_handled,
        logger.handle_event(&DebugEvent::new(300, 1, EXIT), Observation::Exited(Some(0)), 28)
    );
    assert_eq!(
        not_handled,
        logger.handle_event(&DebugEvent::new(200, 1, EXIT), Observation::Exited(Some(2)), 30)
    );
    assert!(!logger.is_live(200));
    let response =
        logger.handle_event(&DebugEvent::new(100, 1, EXIT), Observation::Exited(Some(0)), 40);
    assert_eq!(
        DebugEventResponse::ExitDetach(ExceptionContinuation::NotHandled),
        response
    );
    assert!(logger.is_done());

    let executions = logger.executions();
    assert_eq!(2, executions.len());
    assert_eq!("make", executions[0].command.program);
    assert_eq!(100, executions[0].run.pid);
    assert_eq!(1, executions[0].run.ppid);
    assert_eq!(
        vec![
            Event { at: 10, kind: EventKind::Start },
            Event { at: 40, kind: EventKind::Stop { status: 0 } },
        ],
        executions[0].run.events
    );
    assert_eq!(
        vec![
            Event { at: 20, kind: EventKind::Start },
            Event { at: 30, kind: EventKind::Stop { status: 2 } },
        ],
        executions[1].run.events
    );
}

#[test]
fn a_process_without_an_exit_status_is_dropped() {
    let mut logger = ExecutionLogger::new();
    logger.add_execution(1, command("a"), 0, 1);
    logger.add_execution(2, command("b"), 1, 2);
    logger.add_execution(3, command("c"), 1, 3);
    assert!(logger.has_room());

    logger.finish_execution(2, None, 5);
    assert!(!logger.is_live(2));
    let programs: Vec<&str> = logger
        .executions()
        .iter()
        .map(|execution| execution.command.program.as_str())
        .collect();
    assert_eq!(vec!["a", "c"], programs);

    // The same process number may be used again once the process is gone.
    logger.finish_execution(1, Some(0), 6);
    logger.add_execution(1, command("d"), 0, 7);
    assert!(logger.is_live(1));
    assert_eq!(3, logger.executions().len());
    logger.finish_execution(9, Some(0), 8);
    assert_eq!(3, logger.executions().len());
}

#[test]
fn a_logged_execution_becomes_a_run() {
    let mut logger = ExecutionLogger::new();
    logger.add_execution(7, command("cc"), 3, 1);

    let run = Run::from_logged(logger.executions()[0]);

    assert_eq!("cc", run.execution.executable);
    assert_eq!(vec!["cc".to_string(), "-c".to_string()], run.execution.arguments);
    assert_eq!("C:\\proj", run.execution.working_dir);
    assert_eq!(Some(&"C:\\bin".to_string()), run.execution.environment.get("PATH"));
    assert_eq!(Some(&"1".to_string()), run.execution.environment.get("A"));
    assert_eq!(None, run.execution.environment.get("B"));
    assert_eq!((7, 3), (run.pid, run.ppid));
}

#[test]
fn the_environment_block_ends_at_its_first_empty_entry() {
    let block = EnvironmentBlock {
        data: wide("=C:=C:\\x\0A=1\0NOSIGN\0B=\0C=a=b\0\0D=4\0"),
    };

    let variables = block.iter();

    let expected: Vec<(Vec<u16>, Vec<u16>)> = vec![
        (wide(""), wide("C:=C:\\x")),
        (wide("A"), wide("1")),
        (wide("B"), wide("")),
        (wide("C"), wide("a=b")),
    ];
    assert_eq!(expected, variables);

    let environment = block.environment();
    assert_eq!(Some(&"a=b".to_string()), environment.get("C"));
    assert_eq!(None, environment.get("D"));

    assert!(EnvironmentBlock { data: vec![] }.iter().is_empty());
    assert!(EnvironmentBlock { data: vec![0, 65, 61, 66] }.iter().is_empty());
    // The last entry needs no zero after it.
    assert_eq!(
        vec![(wide("A"), wide("B"))],
        EnvironmentBlock { data: wide("A=B") }.iter()
    );
    // What is no UTF-16 is replaced, not refused.
    let odd = EnvironmentBlock { data: vec![65, 61, 0xD800, 0] };
    assert_eq!(Some(&"\u{FFFD}".to_string()), odd.environment().get("A"));
}

#[test]
fn numbers_are_read_with_the_low_byte_first() {
    let bytes = [0x34, 0x12, 0x08, 0x07, 0x06, 0x05, 0x04, 0x03, 0x02, 0x01, 0xff];
    assert_eq!(0x1234, read_u16(&bytes, 0));
    assert_eq!(0x0102_0304_0506_0708, read_u64(&bytes, 2));
    assert_eq!(0xff01_0203_0405_0607, read_u64(&bytes, 3));
    assert_eq!(u64::MAX, read_u64(&[0xff; 8], 0));
}

#[test]
fn the_process_parameters_are_found_in_the_blocks() {
    let mut peb = vec![0u8; PEB_SIZE];
    peb[32..40].copy_from_slice(&0x0000_7ff6_1234_5678u64.to_le_bytes());
    assert_eq!(Some(0x0000_7ff6_1234_5678), process_parameters_address(&peb));
    assert_eq!(None, process_parameters_address(&peb[..39]));

    let mut block = vec![0u8; PARAMETERS_SIZE];
    block[56..58].copy_from_slice(&14u16.to_le_bytes());
    block[58..60].copy_from_slice(&520u16.to_le_bytes());
    block[64..72].copy_from_slice(&0x1000u64.to_le_bytes());
    block[112..114].copy_from_slice(&25u16.to_le_bytes());
    block[114..116].copy_from_slice(&26u16.to_le_bytes());
    block[120..128].copy_from_slice(&0x2000u64.to_le_bytes());
    block[128..136].copy_from_slice(&0x3000u64.to_le_bytes());
    block[1008..1016].copy_from_slice(&4096u64.to_le_bytes());

    let parameters = ProcessParameters::read(&block).unwrap();

    assert_eq!(
        UnicodeString { length: 14, maximum_length: 520, buffer: 0x1000 },
        parameters.current_directory
    );
    assert_eq!(
        UnicodeString { length: 25, maximum_length: 26, buffer: 0x2000 },
        parameters.command_line
    );
    assert_eq!(7, parameters.current_directory.units());
    assert_eq!(12, parameters.command_line.units());
    assert_eq!(0x3000, parameters.environment);
    assert_eq!(4096, parameters.environment_size);
    assert_eq!(2048, parameters.environment_units());
    assert_eq!(None, ProcessParameters::read(&block[..1015]));
}

#[test]
fn the_image_name_buffer_doubles_until_it_is_large_enough() {
    assert_eq!(ImageNameStep::Grow(2), image_name_step(false, true, 0, 1));
    assert_eq!(ImageNameStep::Grow(512), image_name_step(false, true, 0, 256));
    assert_eq!(ImageNameStep::Done(20), image_name_step(true, false, 20, 256));
    assert_eq!(ImageNameStep::Fail, image_name_step(false, false, 0, 256));
    assert_eq!(ImageNameStep::Fail, image_name_step(true, false, 300, 256));
    assert_eq!(ImageNameStep::Fail, image_name_step(false, true, 0, usize::MAX));
    assert_eq!(ImageNameStep::Fail, image_name_step(false, true, 0, 0));
}

#[test]
fn the_process_creator_quotes_its_arguments() {
    let arguments = vec!["make".to_string(), "CC=my cc".to_string(), "-j4".to_string()];
    let creator = ProcessCreator::new_with_arguments(&arguments, false);
    assert_eq!("make \"CC=my cc\" -j4", creator.command_line());
    assert_eq!(0, creator.flags());

    let forced = ProcessCreator::new_with_arguments(&arguments, true);
    assert_eq!("\"make\" \"CC=my cc\" \"-j4\"", forced.command_line());
    assert_eq!("", ProcessCreator::new_with_arguments(&vec![], false).command_line());

    let creator = ProcessCreator::new_with_command_line("cmd /c build.bat").debug(true);
    assert_eq!("cmd /c build.bat", creator.command_line());
    assert_eq!(DEBUG_PROCESS, creator.flags());
    assert_eq!(DEBUG_PROCESS, creator.clone().debug(true).flags());
    assert_eq!(0, creator.debug(false).flags());
}

#[test]
fn the_connector_keeps_what_it_is_given() {
    let connector = WmiConnector::new("root\\cimv2");
    let settings = connector.settings();
    assert_eq!("root\\cimv2", settings.0);
    assert_eq!(
        (&None, &None, &None, 0, &None),
        (settings.1, settings.2, settings.3, settings.4, settings.5)
    );
    assert_eq!(0x80, WBEM_FLAG_CONNECT_USE_MAX_WAIT);

    let connector = connector
        .user("me")
        .password("SECRET-REDACTED")
        .locale("MS_409")
        .authority("ntlmdomain:d");
    let settings = connector.settings();
    assert_eq!(Some("me".to_string()), *settings.1);
    assert_eq!(Some("SECRET-REDACTED".to_string()), *settings.2);
    assert_eq!(Some("MS_409".to_string()), *settings.3);
    assert_eq!(Some("ntlmdomain:d".to_string()), *settings.5);
    assert_eq!("root\\cimv2", settings.0);
}

#[test]
fn a_new_log_is_empty_and_has_room() {
    let logger = ExecutionLogger::new();
    assert!(logger.executions().is_empty());
    assert!(logger.has_room());
    assert!(logger.is_done());
    assert!(!logger.is_live(100));
}
