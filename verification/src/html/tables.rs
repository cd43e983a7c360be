//! The decision logic of the listing tables: which status a reservation row
//! presents, and which columns a table shows.

use vstd::prelude::*;

use crate::db::models::{FullMachine, Machine, Reservation, ReservationView, User};

verus! {

/// How a reservation row is presented, given the current time.
#[derive(Clone, Copy, Debug, PartialEq, Eq, Structural)]
pub enum RowStatus {
    /// Started and explicitly ended.
    Ended,
    /// Started, not ended, and past its scheduled end.
    Overdue,
    /// Started and still running.
    Active,
    /// Not yet started.
    Upcoming,
}

/// The status a reservation row presents at the instant `now`.
pub open spec fn row_status_spec(r: ReservationView, now: i64) -> RowStatus {
    if r.scheduled_start <= now {
        if r.actual_end is Some {
            RowStatus::Ended
        } else {
            match r.scheduled_end {
                Option::Some(e) => if e <= now {
                    RowStatus::Overdue
                } else {
                    RowStatus::Active
                },
                Option::None => RowStatus::Active,
            }
        }
    } else {
        RowStatus::Upcoming
    }
}

/// Classify a reservation row for presentation.
pub fn row_status(r: &Reservation, now: i64) -> (s: RowStatus)
    ensures
        s == row_status_spec(r@, now),
{
    if r.scheduled_start <= now {
        if r.actual_end.is_some() {
            RowStatus::Ended
        } else {
            match r.scheduled_end {
                Option::Some(e) => {
                    if e <= now {
                        RowStatus::Overdue
                    } else {
                        RowStatus::Active
                    }
                },
                Option::None => RowStatus::Active,
            }
        }
    } else {
        RowStatus::Upcoming
    }
}

impl RowStatus {
    /// The style class each status maps to.
    pub fn class_name(&self) -> (r: &'static str)
        ensures
            *self == RowStatus::Ended ==> r@ == ""@,
            *self == RowStatus::Overdue ==> r@ == "table-danger"@,
            *self == RowStatus::Active ==> r@ == "table-active"@,
            *self == RowStatus::Upcoming ==> r@ == "table-info"@,
    {
        match self {
            RowStatus::Ended => "",
            RowStatus::Overdue => "table-danger",
            RowStatus::Active => "table-active",
            RowStatus::Upcoming => "table-info",
        }
    }
}

/// The header of a listing table: a row of column labels.
pub struct TableHeader(pub Vec<String>);

impl TableHeader {
    /// A header with these labels.
    pub fn new(strs: &[&str]) -> (r: TableHeader)
        ensures
            r.0@.len() == strs@.len(),
            forall|i: int| 0 <= i < strs@.len() ==> r.0@[i]@ == #[trigger] strs@[i]@,
    {
        let n = strs.len();
        let mut v: Vec<String> = Vec::new();
        let mut i: usize = 0;
        while i < n
            invariant
                i <= n,
                n == strs@.len(),
                v@.len() == i,
                forall|k: int| 0 <= k < i ==> v@[k]@ == #[trigger] strs@[k]@,
            decreases n - i,
        {
            let s: &str = strs[i];
            v.push(s.to_owned());
            i = i + 1;
        }
        TableHeader(v)
    }

    /// Append one label when the column is shown.
    pub fn add_if(self, condition: bool, s: &str) -> (r: TableHeader)
        ensures
            condition ==> r.0@.len() == self.0@.len() + 1 && r.0@ =~= self.0@.push(
                r.0@.last(),
            ) && r.0@.last()@ == s@,
            !condition ==> r.0@ == self.0@,
    {
        let mut v = self.0;
        if condition {
            v.push(s.to_owned());
        }
        TableHeader(v)
    }
}

/// Append one label to a header's view when the column is shown.
pub open spec fn header_col(s: Seq<Seq<char>>, show: bool, label: Seq<char>) -> Seq<Seq<char>> {
    if show {
        s.push(label)
    } else {
        s
    }
}

/// The labels of a header's columns.
pub open spec fn header_labels(h: TableHeader) -> Seq<Seq<char>> {
    h.0@.map_values(|s: String| s@)
}

/// A listing of machines; each flag decides whether one descriptive column
/// is shown.  Every column is shown by default.
pub struct MachineTable {
    pub machines: Vec<FullMachine>,
    pub show_arch: bool,
    pub show_cores: bool,
    pub show_freq: bool,
    pub show_memory: bool,
    pub show_microarch: bool,
    pub show_processor_name: bool,
}

/// The column labels a machine table shows.
pub open spec fn machine_header(t: MachineTable) -> Seq<Seq<char>> {
    header_col(
        header_col(
            header_col(
                header_col(
                    header_col(
                        header_col(seq!["Name"@], t.show_arch, "Arch"@),
                        t.show_processor_name,
                        "Proc"@,
                    ),
                    t.show_microarch,
                    "Microarch"@,
                ),
                t.show_cores,
                "Cores"@,
            ),
            t.show_freq,
            "Freq"@,
        ),
        t.show_memory,
        "Memory"@,
    )
}

impl MachineTable {
    /// A table of these machines with every column shown.
    pub fn new(machines: Vec<FullMachine>) -> (r: MachineTable)
        ensures
            r.machines == machines,
            r.show_arch && r.show_cores && r.show_freq && r.show_memory && r.show_microarch
                && r.show_processor_name,
    {
        MachineTable {
            machines,
            show_arch: true,
            show_cores: true,
            show_freq: true,
            show_memory: true,
            show_microarch: true,
            show_processor_name: true,
        }
    }

    pub fn show_arch(self, s: bool) -> (r: MachineTable)
        ensures
            r == (MachineTable { show_arch: s, ..self }),
    {
        MachineTable { show_arch: s, ..self }
    }

    pub fn show_cores(self, s: bool) -> (r: MachineTable)
        ensures
            r == (MachineTable { show_cores: s, ..self }),
    {
        MachineTable { show_cores: s, ..self }
    }

    pub fn show_freq(self, s: bool) -> (r: MachineTable)
        ensures
            r == (MachineTable { show_freq: s, ..self }),
    {
        MachineTable { show_freq: s, ..self }
    }

    pub fn show_memory(self, s: bool) -> (r: MachineTable)
        ensures
            r == (MachineTable { show_memory: s, ..self }),
    {
        MachineTable { show_memory: s, ..self }
    }

    pub fn show_microarch(self, s: bool) -> (r: MachineTable)
        ensures
            r == (MachineTable { show_microarch: s, ..self }),
    {
        MachineTable { show_microarch: s, ..self }
    }

    pub fn show_processor_name(self, s: bool) -> (r: MachineTable)
        ensures
            r == (MachineTable { show_processor_name: s, ..self }),
    {
        MachineTable { show_processor_name: s, ..self }
    }

    /// The header row this table presents.
    pub fn header(&self) -> (r: TableHeader)
        ensures
            header_labels(r) == machine_header(*self),
    {
        let h = TableHeader::new(&["Name"]);
        proof {
            assert(header_labels(h) =~= seq!["Name"@]);
        }
        let ghost s0 = header_labels(h);
        let h = h.add_if(self.show_arch, "Arch");
        proof {
            assert(header_labels(h) =~= header_col(s0, self.show_arch, "Arch"@));
        }
        let ghost s1 = header_labels(h);
        let h = h.add_if(self.show_processor_name, "Proc");
        proof {
            assert(header_labels(h) =~= header_col(s1, self.show_processor_name, "Proc"@));
        }
        let ghost s2 = header_labels(h);
        let h = h.add_if(self.show_microarch, "Microarch");
        proof {
            assert(header_labels(h) =~= header_col(s2, self.show_microarch, "Microarch"@));
        }
        let ghost s3 = header_labels(h);
        let h = h.add_if(self.show_cores, "Cores");
        proof {
            assert(header_labels(h) =~= header_col(s3, self.show_cores, "Cores"@));
        }
        let ghost s4 = header_labels(h);
        let h = h.add_if(self.show_freq, "Freq");
        proof {
            assert(header_labels(h) =~= header_col(s4, self.show_freq, "Freq"@));
        }
        let ghost s5 = header_labels(h);
        let h = h.add_if(self.show_memory, "Memory");
        proof {
            assert(header_labels(h) =~= header_col(s5, self.show_memory, "Memory"@));
        }
        h
    }
}

/// A listing of reservations (each with its machine and user where the
/// context provides them); each flag decides whether one column is shown.
pub struct ReservationTable {
    pub reservations: Vec<(Reservation, Option<Machine>, Option<User>)>,
    pub show_actual_end: bool,
    pub show_machine: bool,
    pub show_scheduled_end: bool,
    pub show_scheduled_start: bool,
    pub show_user: bool,
}

/// The column labels a reservation table shows.
pub open spec fn reservation_header(t: ReservationTable) -> Seq<Seq<char>> {
    header_col(
        header_col(
            header_col(
                header_col(
                    header_col(seq!["#"@], t.show_machine, "Machine"@),
                    t.show_user,
                    "User"@,
                ),
                t.show_scheduled_start,
                "Start"@,
            ),
            t.show_scheduled_end,
            "Scheduled end"@,
        ),
        t.show_actual_end,
        "Actually ended"@,
    )
}

impl ReservationTable {
    /// A table of these reservations with every column shown.
    pub fn new(reservations: Vec<(Reservation, Option<Machine>, Option<User>)>) -> (r:
        ReservationTable)
        ensures
            r.reservations == reservations,
            r.show_actual_end && r.show_machine && r.show_scheduled_end && r.show_scheduled_start
                && r.show_user,
    {
        ReservationTable {
            reservations,
            show_actual_end: true,
            show_machine: true,
            show_scheduled_end: true,
            show_scheduled_start: true,
            show_user: true,
        }
    }

    pub fn show_actual_end(self, s: bool) -> (r: ReservationTable)
        ensures
            r == (ReservationTable { show_actual_end: s, ..self }),
    {
        ReservationTable { show_actual_end: s, ..self }
    }

    pub fn show_machine(self, s: bool) -> (r: ReservationTable)
        ensures
            r == (ReservationTable { show_machine: s, ..self }),
    {
        ReservationTable { show_machine: s, ..self }
    }

    pub fn show_scheduled_end(self, s: bool) -> (r: ReservationTable)
        ensures
            r == (ReservationTable { show_scheduled_end: s, ..self }),
    {
        ReservationTable { show_scheduled_end: s, ..self }
    }

    pub fn show_scheduled_start(self, s: bool) -> (r: ReservationTable)
        ensures
            r == (ReservationTable { show_scheduled_start: s, ..self }),
    {
        ReservationTable { show_scheduled_start: s, ..self }
    }

    pub fn show_user(self, s: bool) -> (r: ReservationTable)
        ensures
            r == (ReservationTable { show_user: s, ..self }),
    {
        ReservationTable { show_user: s, ..self }
    }

    /// The header row this table presents.
    pub fn header(&self) -> (r: TableHeader)
        ensures
            header_labels(r) == reservation_header(*self),
    {
        let h = TableHeader::new(&["#"]);
        proof {
            assert(header_labels(h) =~= seq!["#"@]);
        }
        let ghost s0 = header_labels(h);
        let h = h.add_if(self.show_machine, "Machine");
        proof {
            assert(header_labels(h) =~= header_col(s0, self.show_machine, "Machine"@));
        }
        let ghost s1 = header_labels(h);
        let h = h.add_if(self.show_user, "User");
        proof {
            assert(header_labels(h) =~= header_col(s1, self.show_user, "User"@));
        }
        let ghost s2 = header_labels(h);
        let h = h.add_if(self.show_scheduled_start, "Start");
        proof {
            assert(header_labels(h) =~= header_col(s2, self.show_scheduled_start, "Start"@));
        }
        let ghost s3 = header_labels(h);
        let h = h.add_if(self.show_scheduled_end, "Scheduled end");
        proof {
            assert(header_labels(h) =~= header_col(s3, self.show_scheduled_end, "Scheduled end"@));
        }
        let ghost s4 = header_labels(h);
        let h = h.add_if(self.show_actual_end, "Actually ended");
        proof {
            assert(header_labels(h) =~= header_col(s4, self.show_actual_end, "Actually ended"@));
        }
        h
    }
}

} // verus!
