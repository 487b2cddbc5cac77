use std::io::Read;
use std::io::Write;

use serialport::SerialPort;
use serialport::TTYPort;

use serial_support::errors::WebsocketSerialServerError;
use serial_support::port_manager::{
    DriverError, PortManager, PortOutcome, PortRead, BAUD_RATE, READ_BUFFER_SIZE,
    READ_TIMEOUT_MILLIS,
};

fn driver_error(err: &std::io::Error) -> DriverError {
    DriverError {
        timed_out: err.kind() == std::io::ErrorKind::TimedOut,
        description: format!("{:?}", err.kind()),
        display: err.to_string(),
    }
}

#[test]
fn port_manager_test_unix_serialports() {
    let (mut master, mut slave) = TTYPort::pair().expect("Failed to create pseudoterminal pair!");

    slave
        .set_exclusive(false)
        .expect("Failed to set exclusive false");

    let serial_msg = "abcdefg";

    if let Some(s_name) = slave.name() {
        let mut port_manager = PortManager::new();

        let opened = serialport::new(s_name.as_str(), BAUD_RATE)
            .data_bits(serialport::DataBits::Eight)
            .flow_control(serialport::FlowControl::None)
            .parity(serialport::Parity::None)
            .stop_bits(serialport::StopBits::One)
            .timeout(std::time::Duration::from_millis(READ_TIMEOUT_MILLIS))
            .exclusive(false)
            .open();
        let (mut handle, device) = match opened {
            Ok(handle) => (Some(handle), Ok(())),
            Err(e) => (
                None,
                Err(DriverError {
                    timed_out: false,
                    description: e.description.clone(),
                    display: e.to_string(),
                }),
            ),
        };

        port_manager
            .open_port(&s_name, device)
            .expect(&format!("Failed to open slave port {}", s_name));
        let slave_port = handle.as_mut().unwrap();

        // Write to master, read from slave via port manager
        {
            master
                .write(serial_msg.as_bytes())
                .expect("Write to master failed!");

            let mut res = Vec::new();
            let mut tries = 0;
            while res.is_empty() && tries < 1000 {
                tries += 1;
                let mut buffer = vec![0; READ_BUFFER_SIZE];
                let attempt = match slave_port.read(buffer.as_mut_slice()) {
                    Ok(bytes_read) => Ok(buffer[0..bytes_read].to_vec()),
                    Err(e) => Err(driver_error(&e)),
                };
                res = port_manager.read_all_ports(&vec![PortRead { port: s_name.clone(), attempt }]);
            }

            assert_eq!(res.len(), 1, "Should have read one port.");

            for outcome in res {
                match outcome.result {
                    Ok(bytes) => {
                        let read_msg = String::from_utf8_lossy(&bytes);
                        assert_eq!(
                            serial_msg, read_msg,
                            "Messages should be same '{}' '{}'",
                            serial_msg, read_msg
                        );
                    }
                    Err(e) => panic!("Got error reading port {}", e.display()),
                }
            }
        }

        // Write to slave via port manager, read from master
        {
            let written = slave_port
                .write_all(serial_msg.as_bytes())
                .and_then(|_| slave_port.flush())
                .map_err(|e| driver_error(&e));
            port_manager
                .write_port(&s_name, written)
                .expect("Write to port failed");
            let mut buffer = vec![0; 4096];
            if let Ok(bytes_read) = master.read(buffer.as_mut_slice()) {
                let bytes = buffer[0..bytes_read].to_vec();
                let read_msg = String::from_utf8_lossy(&bytes);
                assert_eq!(
                    serial_msg, read_msg,
                    "Messages should be same '{}' '{}'",
                    serial_msg, read_msg
                );
            } else {
                panic!("Reading master failed!");
            }
        }
    } else {
        panic!("Failed to get slave pty name");
    }
}

fn name(text: &str) -> String {
    text.to_string()
}

fn failure(timed_out: bool) -> DriverError {
    DriverError {
        timed_out,
        description: name("TimedOut"),
        display: name("Operation timed out"),
    }
}

fn broken() -> DriverError {
    DriverError { timed_out: false, description: name("NoDevice"), display: name("No such device") }
}

fn as_other(e: DriverError) -> WebsocketSerialServerError {
    WebsocketSerialServerError::Other { description: e.description, display: e.display }
}

#[test]
fn fixed_port_settings() {
    assert_eq!(BAUD_RATE, 115200);
    assert_eq!(READ_TIMEOUT_MILLIS, 1);
    assert_eq!(READ_BUFFER_SIZE, 4096);
}

#[test]
fn open_is_idempotent() {
    let mut ports = PortManager::new();
    let port = name("/dev/ttyUSB0");
    assert!(!ports.is_port_open(&port));
    assert_eq!(ports.open_port(&port, Ok(())), Ok(()));
    assert!(ports.is_port_open(&port));
    // a second open succeeds whatever the driver says, and adds nothing
    assert_eq!(ports.open_port(&port, Ok(())), Ok(()));
    assert_eq!(ports.open_port(&port, Err(broken())), Ok(()));
    assert_eq!(ports.open_ports(), vec![port.clone()]);
}

#[test]
fn failed_open_leaves_the_port_closed() {
    let mut ports = PortManager::new();
    let port = name("/dev/ttyUSB0");
    assert_eq!(ports.open_port(&port, Err(broken())), Err(as_other(broken())));
    assert!(!ports.is_port_open(&port));
    assert_eq!(ports.open_ports(), Vec::<String>::new());
}

#[test]
fn close_removes_only_the_named_port() {
    let mut ports = PortManager::new();
    ports.open_port(&name("a"), Ok(())).unwrap();
    ports.open_port(&name("b"), Ok(())).unwrap();
    ports.open_port(&name("c"), Ok(())).unwrap();
    ports.close_port(&name("b"));
    assert_eq!(ports.open_ports(), vec![name("a"), name("c")]);
    ports.close_port(&name("b"));
    assert_eq!(ports.open_ports(), vec![name("a"), name("c")]);
}

#[test]
fn write_needs_an_open_port() {
    let mut ports = PortManager::new();
    let port = name("/dev/ttyUSB0");
    let not_found = WebsocketSerialServerError::OpenPortNotFound { port: port.clone() };
    assert_eq!(ports.check_port_open(&port), Err(not_found.clone()));
    assert_eq!(ports.write_port(&port, Ok(())), Err(not_found.clone()));
    assert_eq!(ports.read_port(&port, Ok(7)), Err(not_found));
    ports.open_port(&port, Ok(())).unwrap();
    assert_eq!(ports.check_port_open(&port), Ok(()));
    assert_eq!(ports.write_port(&port, Ok(())), Ok(()));
    assert_eq!(ports.write_port(&port, Err(broken())), Err(as_other(broken())));
    assert_eq!(ports.read_port(&port, Ok(7)), Ok(7));
    assert_eq!(ports.read_port(&port, Err(broken())), Err(as_other(broken())));
}

#[test]
fn listing_passes_on_what_the_driver_says() {
    let ports = PortManager::new();
    assert_eq!(
        ports.list_ports(Ok(vec![name("/dev/ttyUSB0"), name("/dev/ttyUSB1")])),
        Ok(vec![name("/dev/ttyUSB0"), name("/dev/ttyUSB1")])
    );
    assert_eq!(ports.list_ports(Err(broken())), Err(as_other(broken())));
}

#[test]
fn read_attempts_are_classified() {
    let port = name("/dev/ttyUSB0");
    let data = PortRead { port: port.clone(), attempt: Ok(b"abc".to_vec()) };
    let eof = PortRead { port: port.clone(), attempt: Ok(vec![]) };
    let timeout = PortRead { port: port.clone(), attempt: Err(failure(true)) };
    let error = PortRead { port: port.clone(), attempt: Err(broken()) };
    assert_eq!(
        PortManager::read_outcome(&data),
        Some(PortOutcome { port: port.clone(), result: Ok(b"abc".to_vec()) })
    );
    assert_eq!(
        PortManager::read_outcome(&eof),
        Some(PortOutcome {
            port: port.clone(),
            result: Err(WebsocketSerialServerError::PortEofError { port: port.clone() }),
        })
    );
    assert_eq!(PortManager::read_outcome(&timeout), None);
    assert_eq!(
        PortManager::read_outcome(&error),
        Some(PortOutcome {
            port: port.clone(),
            result: Err(WebsocketSerialServerError::PortReadError { port: port.clone() }),
        })
    );
}

#[test]
fn sweep_reports_open_ports_only() {
    let mut ports = PortManager::new();
    ports.open_port(&name("a"), Ok(())).unwrap();
    ports.open_port(&name("b"), Ok(())).unwrap();
    let attempts = vec![
        PortRead { port: name("b"), attempt: Ok(b"from b".to_vec()) },
        PortRead { port: name("closed"), attempt: Ok(b"stray".to_vec()) },
        PortRead { port: name("a"), attempt: Err(failure(true)) },
    ];
    assert_eq!(
        ports.read_all_ports(&attempts),
        vec![PortOutcome { port: name("b"), result: Ok(b"from b".to_vec()) }]
    );
    assert_eq!(ports.read_all_ports(&vec![]), vec![]);
}
