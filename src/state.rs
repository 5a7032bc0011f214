use vstd::prelude::*;
use crate::pathfinder::{is_unvisited_permutation, POS_SCALE};

verus! {

/// The two phases of a collection session.
#[derive(Debug, Clone, Copy, PartialEq, Eq, Structural)]
pub enum Mode {
    Record,
    Find,
}

/// A sighting of a resource, as an offset in meters from the point of observation.
#[derive(Debug)]
pub struct Survey {
    pub resource: String,
    /// meters east (positive) or west (negative)
    pub dx: i32,
    /// meters south (positive) or north (negative)
    pub dy: i32,
    pub found: bool,
}

impl Survey {
    /// A field-by-field copy.
    pub fn duplicate(&self) -> (r: Survey)
        ensures
            r == *self,
    {
        Survey { resource: self.resource.clone(), dx: self.dx, dy: self.dy, found: self.found }
    }
}

/// How many committed surveys name one resource.
#[derive(Debug)]
pub struct ResourceCount {
    pub name: String,
    pub count: usize,
}

/// The single shared record of a session. The player's position is normalized, in
/// millionths (`POS_SCALE` stands for 1); map sizes are in display pixels.
pub struct AppState {
    pub mode: Mode,
    pub zone: String,
    pub surveys: Vec<Survey>,
    pub player_pos: (u32, u32),
    pub map_width: u32,
    pub map_height: u32,
    pub log_directory: Option<String>,
    pub file_position: u64,
    pub batch_size: usize,
    pub path_order: Vec<usize>,
    /// sightings gathered in record mode before the batch is committed
    pub record_buffer: Vec<Survey>,
}

impl AppState {
    /// Everything but the path order is consistent.
    pub open spec fn wf_fields(&self) -> bool {
        &&& self.batch_size >= 1
        &&& self.record_buffer@.len() <= self.batch_size
        &&& self.player_pos.0 <= POS_SCALE
        &&& self.player_pos.1 <= POS_SCALE
        &&& self.map_width >= 1
        &&& self.map_height >= 1
    }

    /// The state's invariant: the buffer fits the batch, the position is normalized, and
    /// the path order lists each unvisited survey exactly once.
    pub open spec fn wf(&self) -> bool {
        &&& self.wf_fields()
        &&& is_unvisited_permutation(self.surveys@, self.path_order@)
    }
}

impl Default for AppState {
    fn default() -> (r: AppState)
        ensures
            r.wf(),
            r.mode == Mode::Record,
            r.zone@ == "Serbule"@,
            r.surveys@.len() == 0,
            r.player_pos == (POS_SCALE / 2, POS_SCALE / 2),
            r.map_width == 750,
            r.map_height == 750,
            r.log_directory is None,
            r.file_position == 0,
            r.batch_size == 5,
            r.path_order@.len() == 0,
            r.record_buffer@.len() == 0,
    {
        let r = AppState {
            mode: Mode::Record,
            zone: String::from_str("Serbule"),
            surveys: Vec::new(),
            player_pos: (POS_SCALE / 2, POS_SCALE / 2),
            map_width: 750,
            map_height: 750,
            log_directory: None,
            file_position: 0,
            batch_size: 5,
            path_order: Vec::new(),
            record_buffer: Vec::new(),
        };
        proof {
            reveal_strlit("Serbule");
            assert(r.path_order@ =~= Seq::<usize>::empty());
        }
        r
    }
}

} // verus!
