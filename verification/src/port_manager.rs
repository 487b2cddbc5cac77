//! The port registry: which serial ports are open, and what the outcome of
//! each attempt to open, read or write a device means.
//!
//! The devices themselves are driven elsewhere. The registry is told what
//! the driver answered and decides what that answer is worth.

use vstd::prelude::*;
use crate::errors::{ErrorView, WebsocketSerialServerError};
use crate::names::{clone_names, contains_name, insert_name, other_than, remove_name};

verus! {

/// The baud rate every port is opened with.
pub const BAUD_RATE: u32 = 115200;

/// The time a read waits for data, in milliseconds.
pub const READ_TIMEOUT_MILLIS: u64 = 1;

/// The size of the buffer of one read attempt, in bytes.
pub const READ_BUFFER_SIZE: usize = 4096;

/// A failure reported by the serial driver.
#[derive(Clone, Debug, PartialEq)]
pub struct DriverError {
    /// Whether the driver gave up waiting: no failure of the device.
    pub timed_out: bool,
    /// The kind of failure, in the driver's words.
    pub description: String,
    /// The failure, in the driver's words.
    pub display: String,
}

/// The mathematical value of a [`DriverError`].
pub struct DriverErrorView {
    pub timed_out: bool,
    pub description: Seq<char>,
    pub display: Seq<char>,
}

impl View for DriverError {
    type V = DriverErrorView;

    open spec fn view(&self) -> DriverErrorView {
        DriverErrorView {
            timed_out: self.timed_out,
            description: self.description@,
            display: self.display@,
        }
    }
}

impl DeepView for DriverError {
    type V = DriverErrorView;

    open spec fn deep_view(&self) -> DriverErrorView {
        self@
    }
}

impl DriverErrorView {
    /// The failure as one of the server's own.
    pub open spec fn as_error(self) -> ErrorView {
        ErrorView::Other { description: self.description, display: self.display }
    }
}

impl DriverError {
    /// The failure as one of the server's own.
    pub fn into_error(self) -> (err: WebsocketSerialServerError)
        ensures
            err@ == self@.as_error(),
    {
        WebsocketSerialServerError::Other { description: self.description, display: self.display }
    }
}

/// The mathematical value of the driver's answer to a call.
pub open spec fn answer_view<T>(device: Result<T, DriverError>) -> Result<T, DriverErrorView> {
    match device {
        Ok(value) => Ok(value),
        Err(e) => Err(e@),
    }
}

/// The mathematical value of the driver's answer to a request for the list
/// of ports.
pub open spec fn listing_view(device: Result<Vec<String>, DriverError>) -> Result<
    Seq<Seq<char>>,
    DriverErrorView,
> {
    match device {
        Ok(names) => Ok(names.deep_view()),
        Err(e) => Err(e@),
    }
}

/// What one read attempt on one open port gave: the bytes read (none at
/// end of file), or the driver's failure.
#[derive(Debug, PartialEq)]
pub struct PortRead {
    pub port: String,
    pub attempt: Result<Vec<u8>, DriverError>,
}

/// The mathematical value of a [`PortRead`].
pub struct PortReadView {
    pub port: Seq<char>,
    pub attempt: Result<Seq<u8>, DriverErrorView>,
}

impl View for PortRead {
    type V = PortReadView;

    open spec fn view(&self) -> PortReadView {
        PortReadView {
            port: self.port@,
            attempt: match self.attempt {
                Ok(bytes) => Ok(bytes@),
                Err(e) => Err(e@),
            },
        }
    }
}

impl DeepView for PortRead {
    type V = PortReadView;

    open spec fn deep_view(&self) -> PortReadView {
        self@
    }
}

/// What a sweep found on one port: data, or the reason the port is bad.
#[derive(Debug, PartialEq)]
pub struct PortOutcome {
    pub port: String,
    pub result: Result<Vec<u8>, WebsocketSerialServerError>,
}

/// The mathematical value of a [`PortOutcome`].
pub struct PortOutcomeView {
    pub port: Seq<char>,
    pub result: Result<Seq<u8>, ErrorView>,
}

impl View for PortOutcome {
    type V = PortOutcomeView;

    open spec fn view(&self) -> PortOutcomeView {
        PortOutcomeView {
            port: self.port@,
            result: match self.result {
                Ok(bytes) => Ok(bytes@),
                Err(e) => Err(e@),
            },
        }
    }
}

impl DeepView for PortOutcome {
    type V = PortOutcomeView;

    open spec fn deep_view(&self) -> PortOutcomeView {
        self@
    }
}

impl PortReadView {
    /// What the attempt means: nothing where the driver only timed out;
    /// end of file where it read no bytes; a read error where it failed
    /// otherwise; else the data.
    pub open spec fn outcome(self) -> Option<PortOutcomeView> {
        match self.attempt {
            Ok(bytes) => if bytes.len() == 0 {
                Some(
                    PortOutcomeView {
                        port: self.port,
                        result: Err(ErrorView::PortEofError { port: self.port }),
                    },
                )
            } else {
                Some(PortOutcomeView { port: self.port, result: Ok(bytes) })
            },
            Err(e) => if e.timed_out {
                None
            } else {
                Some(
                    PortOutcomeView {
                        port: self.port,
                        result: Err(ErrorView::PortReadError { port: self.port }),
                    },
                )
            },
        }
    }
}

/// The outcomes of one sweep over the open ports `ports`, given the read
/// attempts made: one for each attempt on an open port that means
/// something, in the order of the attempts.
pub open spec fn sweep_outcomes(ports: Seq<Seq<char>>, attempts: Seq<PortReadView>) -> Seq<
    PortOutcomeView,
>
    decreases attempts.len(),
{
    if attempts.len() == 0 {
        Seq::empty()
    } else {
        let earlier = sweep_outcomes(ports, attempts.drop_last());
        let attempt = attempts.last();
        if ports.contains(attempt.port) && attempt.outcome() is Some {
            earlier.push(attempt.outcome()->Some_0)
        } else {
            earlier
        }
    }
}

/// The open ports after an attempt to open `port` ended as `device` says.
pub open spec fn ports_after_open(
    ports: Seq<Seq<char>>,
    port: Seq<char>,
    device: Result<(), DriverErrorView>,
) -> Seq<Seq<char>> {
    if !ports.contains(port) && device is Ok {
        ports.push(port)
    } else {
        ports
    }
}

/// The open ports after `port` was closed.
pub open spec fn ports_after_close(ports: Seq<Seq<char>>, port: Seq<char>) -> Seq<Seq<char>> {
    ports.filter(other_than(port))
}

/// Manages the open ports and the outcomes of reading and writing them.
pub struct PortManager {
    /// The names of the open ports, in the order in which they were opened.
    open_ports: Vec<String>,
}

impl View for PortManager {
    type V = Seq<Seq<char>>;

    closed spec fn view(&self) -> Seq<Seq<char>> {
        self.open_ports.deep_view()
    }
}

impl PortManager {
    /// No port is open twice.
    pub open spec fn wf(&self) -> bool {
        self@.no_duplicates()
    }

    /// Create a new PortManager instance.
    pub fn new() -> (manager: PortManager)
        ensures
            manager.wf(),
            manager@ == Seq::<Seq<char>>::empty(),
    {
        let manager = PortManager { open_ports: Vec::new() };
        assert(manager@ =~= Seq::<Seq<char>>::empty());
        manager
    }

    /// Has the port been opened.
    pub fn is_port_open(&self, port_name: &String) -> (open: bool)
        ensures
            open == self@.contains(port_name@),
    {
        contains_name(&self.open_ports, port_name)
    }

    /// The ports the driver lists, or the failure it reported instead.
    pub fn list_ports(&self, device: Result<Vec<String>, DriverError>) -> (listed: Result<
        Vec<String>,
        WebsocketSerialServerError,
    >)
        ensures
            match device {
                Ok(names) => listed == Ok::<Vec<String>, WebsocketSerialServerError>(names),
                Err(e) => listed is Err && listed->Err_0@ == e@.as_error(),
            },
    {
        match device {
            Ok(names) => Ok(names),
            Err(e) => Err(e.into_error()),
        }
    }

    /// Open a port: record what the driver answered when asked to open the
    /// device. A port that is open already stays so, whatever the answer.
    pub fn open_port(&mut self, port_name: &String, device: Result<(), DriverError>) -> (outcome:
        Result<(), WebsocketSerialServerError>)
        requires
            old(self).wf(),
        ensures
            final(self).wf(),
            final(self)@ == ports_after_open(old(self)@, port_name@, answer_view(device)),
            outcome is Ok <==> old(self)@.contains(port_name@) || device is Ok,
            outcome is Err ==> outcome->Err_0@ == device->Err_0@.as_error(),
    {
        if self.is_port_open(port_name) {
            Ok(())
        } else {
            match device {
                Ok(_) => {
                    insert_name(&mut self.open_ports, port_name);
                    Ok(())
                },
                Err(e) => Err(e.into_error()),
            }
        }
    }

    /// Close a port.
    pub fn close_port(&mut self, port_name: &String)
        requires
            old(self).wf(),
        ensures
            final(self).wf(),
            final(self)@ == ports_after_close(old(self)@, port_name@),
            !final(self)@.contains(port_name@),
            forall|other: Seq<char>|
                other != port_name@ ==> (final(self)@.contains(other) <==> old(self)@.contains(other)),
    {
        remove_name(&mut self.open_ports, port_name);
        proof {
            assert forall|other: Seq<char>|
                self@.contains(other) <==> old(self)@.contains(other) && other != port_name@ by {
                assert(self@.to_set().contains(other) <==> self@.contains(other));
                assert(old(self)@.to_set().contains(other) <==> old(self)@.contains(other));
            }
        }
    }

    /// Whether the port can be written: it must be open.
    pub fn check_port_open(&self, port_name: &String) -> (outcome: Result<
        (),
        WebsocketSerialServerError,
    >)
        ensures
            outcome is Ok <==> self@.contains(port_name@),
            outcome is Err ==> outcome->Err_0@ == (ErrorView::OpenPortNotFound { port: port_name@ }),
    {
        if self.is_port_open(port_name) {
            Ok(())
        } else {
            Err(WebsocketSerialServerError::OpenPortNotFound { port: port_name.clone() })
        }
    }

    /// Write data to the port: what the driver's answer to the write is
    /// worth. A port that is not open cannot have been written.
    pub fn write_port(&self, port_name: &String, device: Result<(), DriverError>) -> (outcome: Result<
        (),
        WebsocketSerialServerError,
    >)
        ensures
            outcome is Ok <==> self@.contains(port_name@) && device is Ok,
            outcome is Err ==> outcome->Err_0@ == if !self@.contains(port_name@) {
                ErrorView::OpenPortNotFound { port: port_name@ }
            } else {
                device->Err_0@.as_error()
            },
    {
        match self.check_port_open(port_name) {
            Err(e) => Err(e),
            Ok(_) => match device {
                Ok(_) => Ok(()),
                Err(e) => Err(e.into_error()),
            },
        }
    }

    /// Read data from a port: what the driver's answer to the read is
    /// worth. If successful, returns the number of bytes read.
    pub fn read_port(&self, port_name: &String, device: Result<usize, DriverError>) -> (outcome:
        Result<usize, WebsocketSerialServerError>)
        ensures
            outcome is Ok <==> self@.contains(port_name@) && device is Ok,
            outcome is Ok ==> outcome->Ok_0 == device->Ok_0,
            outcome is Err ==> outcome->Err_0@ == if !self@.contains(port_name@) {
                ErrorView::OpenPortNotFound { port: port_name@ }
            } else {
                device->Err_0@.as_error()
            },
    {
        match self.check_port_open(port_name) {
            Err(e) => Err(e),
            Ok(_) => match device {
                Ok(count) => Ok(count),
                Err(e) => Err(e.into_error()),
            },
        }
    }

    /// What one read attempt means, if anything.
    pub fn read_outcome(attempt: &PortRead) -> (outcome: Option<PortOutcome>)
        ensures
            outcome.deep_view() == attempt@.outcome(),
    {
        match &attempt.attempt {
            Ok(bytes) => {
                if bytes.len() == 0 {
                    Some(
                        PortOutcome {
                            port: attempt.port.clone(),
                            result: Err(
                                WebsocketSerialServerError::PortEofError {
                                    port: attempt.port.clone(),
                                },
                            ),
                        },
                    )
                } else {
                    Some(PortOutcome { port: attempt.port.clone(), result: Ok(bytes.clone()) })
                }
            },
            Err(e) => {
                if e.timed_out {
                    None
                } else {
                    Some(
                        PortOutcome {
                            port: attempt.port.clone(),
                            result: Err(
                                WebsocketSerialServerError::PortReadError {
                                    port: attempt.port.clone(),
                                },
                            ),
                        },
                    )
                }
            },
        }
    }

    /// Read all currently open ports: given one read attempt per port,
    /// return the outcome for each open port that has one.
    pub fn read_all_ports(&self, attempts: &Vec<PortRead>) -> (outcomes: Vec<PortOutcome>)
        ensures
            outcomes.deep_view() == sweep_outcomes(self@, attempts.deep_view()),
    {
        let mut outcomes: Vec<PortOutcome> = Vec::new();
        let mut i: usize = 0;
        assert(attempts.deep_view().take(0) =~= Seq::<PortReadView>::empty());
        while i < attempts.len()
            invariant
                i <= attempts.len(),
                outcomes.deep_view() == sweep_outcomes(self@, attempts.deep_view().take(i as int)),
            decreases attempts.len() - i,
        {
            proof {
                assert(attempts.deep_view().take(i + 1).drop_last() =~= attempts.deep_view().take(
                    i as int,
                ));
                assert(attempts.deep_view().take(i + 1).last() == attempts[i as int]@);
            }
            if self.is_port_open(&attempts[i].port) {
                match PortManager::read_outcome(&attempts[i]) {
                    Some(outcome) => {
                        let ghost earlier = outcomes.deep_view();
                        outcomes.push(outcome);
                        assert(outcomes.deep_view() =~= earlier.push(outcome@));
                    },
                    None => {},
                }
            }
            i += 1;
        }
        assert(attempts.deep_view().take(i as int) =~= attempts.deep_view());
        outcomes
    }

    /// Get the open ports, in the order in which they were opened.
    pub fn open_ports(&self) -> (ports: Vec<String>)
        ensures
            ports.deep_view() == self@,
    {
        clone_names(&self.open_ports)
    }
}

} // verus!
