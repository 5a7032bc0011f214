use vstd::prelude::*;
use crate::parser::{
    collects, is_collection, is_new_survey, parse_sighting, parse_zone, sighting_of_line, texts,
    zone_of_line,
};
use crate::pathfinder::{find_path, is_route_for, POS_SCALE};
use crate::state::{AppState, Mode, Survey};
use crate::survey::{dedup_spec, deduplicate_surveys, str_eq};

verus! {

/// The buffer after `s` arrives at `buf`: the `batch` most recent sightings.
pub open spec fn window(buf: Seq<Survey>, s: Survey, batch: int) -> Seq<Survey> {
    let b = buf.push(s);
    if b.len() > batch {
        b.subrange(b.len() - batch, b.len() as int)
    } else {
        b
    }
}

/// The buffer after each of `arrivals` arrives in turn at an empty buffer.
pub open spec fn window_all(arrivals: Seq<Survey>, batch: int) -> Seq<Survey>
    decreases arrivals.len(),
{
    if arrivals.len() == 0 {
        Seq::empty()
    } else {
        window(window_all(arrivals.drop_last(), batch), arrivals.last(), batch)
    }
}

/// The sliding window never holds more than `batch` sightings, and after any run of
/// arrivals it holds exactly the last `batch` of them (all, if fewer), in arrival order.
pub proof fn lemma_window_keeps_last(arrivals: Seq<Survey>, batch: int)
    requires
        batch >= 1,
    ensures
        window_all(arrivals, batch).len() <= batch,
        window_all(arrivals, batch) == if arrivals.len() > batch {
            arrivals.subrange(arrivals.len() - batch, arrivals.len() as int)
        } else {
            arrivals
        },
    decreases arrivals.len(),
{
    if arrivals.len() > 0 {
        let prev = arrivals.drop_last();
        lemma_window_keeps_last(prev, batch);
        if prev.len() > batch {
            assert(window_all(arrivals, batch) =~= arrivals.subrange(
                arrivals.len() - batch,
                arrivals.len() as int,
            ));
        } else {
            assert(prev.push(arrivals.last()) =~= arrivals);
            if arrivals.len() > batch {
                assert(window_all(arrivals, batch) =~= arrivals.subrange(
                    arrivals.len() - batch,
                    arrivals.len() as int,
                ));
            }
        }
    }
}

/// The settings that no ingested line changes.
pub open spec fn same_settings(a: AppState, b: AppState) -> bool {
    &&& a.player_pos == b.player_pos
    &&& a.map_width == b.map_width
    &&& a.map_height == b.map_height
    &&& a.log_directory == b.log_directory
    &&& a.file_position == b.file_position
    &&& a.batch_size == b.batch_size
}

/// `new` is `old` after sighting `s` arrives in record mode: it joins the sliding
/// window; when the window is full, its deduplicated content becomes the committed
/// set, the buffer empties, a route is computed and the mode turns to find.
pub open spec fn record_step(old: AppState, new: AppState, s: Survey) -> bool {
    let w = window(old.record_buffer@, s, old.batch_size as int);
    &&& same_settings(old, new)
    &&& if w.len() == old.batch_size {
        &&& new.surveys@ == dedup_spec(w)
        &&& new.record_buffer@.len() == 0
        &&& new.mode == Mode::Find
        &&& is_route_for(new.surveys@, new.player_pos, new.zone@, new.path_order@)
    } else {
        &&& new.record_buffer@ == w
        &&& new.surveys@ == old.surveys@
        &&& new.path_order@ == old.path_order@
        &&& new.mode == old.mode
    }
}

/// Position `k` of `path` names a committed survey that is not yet found.
pub open spec fn is_pending(s: Seq<Survey>, path: Seq<usize>, k: int) -> bool {
    path[k] < s.len() && !s[path[k] as int].found
}

/// `s` with its found flag set.
pub open spec fn mark_found(s: Survey) -> Survey {
    Survey { resource: s.resource, dx: s.dx, dy: s.dy, found: true }
}

/// `new` is `old` after a collection in find mode: the first pending survey in path
/// order, if any (`r`), is marked found; the reported name plays no part.
pub open spec fn collect_step(old: AppState, new: AppState, r: bool) -> bool {
    let path = old.path_order@;
    &&& same_settings(old, new)
    &&& new.mode == old.mode
    &&& new.record_buffer@ == old.record_buffer@
    &&& new.path_order@ == path
    &&& r == exists|k: int| 0 <= k < path.len() && is_pending(old.surveys@, path, k)
    &&& r ==> exists|k: int|
        0 <= k < path.len() && is_pending(old.surveys@, path, k) && (forall|j: int|
            0 <= j < k ==> !is_pending(old.surveys@, path, j)) && new.surveys@ == old.surveys@.update(
            path[k] as int,
            mark_found(old.surveys@[path[k] as int]),
        )
    &&& !r ==> new.surveys@ == old.surveys@
}

/// Only the zone may differ between `old` and `new`.
pub open spec fn body_unchanged(old: AppState, new: AppState) -> bool {
    &&& same_settings(old, new)
    &&& new.mode == old.mode
    &&& new.surveys@ == old.surveys@
    &&& new.path_order@ == old.path_order@
    &&& new.record_buffer@ == old.record_buffer@
}

/// `new` is `old` after one line, with the flags that tell whether the zone changed
/// and whether anything changed: a zone change applies in either mode; in record mode
/// a sighting is taken in; in find mode a collection consumes the next survey in path
/// order; anything else leaves the state as it was.
pub open spec fn line_step(
    old: AppState,
    new: AppState,
    line: Seq<char>,
    zone_changed: bool,
    changed: bool,
) -> bool {
    let z = zone_of_line(line);
    &&& zone_changed == (z is Some && z->0 != old.zone@)
    &&& new.zone@ == if zone_changed {
        z->0
    } else {
        old.zone@
    }
    &&& if old.mode == Mode::Record {
        match sighting_of_line(line) {
            Some(v) => changed && exists|s: Survey| is_new_survey(s, v) && record_step(old, new, s),
            None => changed == zone_changed && body_unchanged(old, new),
        }
    } else if collects(line) {
        exists|r: bool| collect_step(old, new, r) && changed == (zone_changed || r)
    } else {
        changed == zone_changed && body_unchanged(old, new)
    }
}

/// `b` is `a` with its route recomputed.
pub open spec fn rerouted(a: AppState, b: AppState) -> bool {
    &&& same_settings(a, b)
    &&& b.mode == a.mode
    &&& b.zone == a.zone
    &&& b.surveys@ == a.surveys@
    &&& b.record_buffer@ == a.record_buffer@
    &&& is_route_for(b.surveys@, b.player_pos, b.zone@, b.path_order@)
}

/// `states` are the states that one pass over `lines` goes through from `old`, with each
/// line's flags: whether the zone changed and whether anything changed.
pub open spec fn is_pass(
    old: AppState,
    lines: Seq<Seq<char>>,
    states: Seq<AppState>,
    zs: Seq<bool>,
    cs: Seq<bool>,
) -> bool {
    &&& states.len() == lines.len() + 1
    &&& zs.len() == lines.len()
    &&& cs.len() == lines.len()
    &&& states[0] == old
    &&& forall|k: int|
        0 <= k < lines.len() ==> #[trigger] line_step(states[k], states[k + 1], lines[k], zs[k], cs[k])
}

/// `new` and the flags `r` are the outcome of one pass over `lines` from `old`: the lines
/// apply in order, and if anything changed and the pass ends in find mode, the route is
/// recomputed once.
pub open spec fn pass_result(old: AppState, lines: Seq<Seq<char>>, r: (bool, bool), new: AppState) -> bool {
    exists|states: Seq<AppState>, zs: Seq<bool>, cs: Seq<bool>|
        {
            &&& is_pass(old, lines, states, zs, cs)
            &&& r.0 == zs.contains(true)
            &&& r.1 == cs.contains(true)
            &&& if r.1 && states.last().mode == Mode::Find {
                rerouted(states.last(), new)
            } else {
                new == states.last()
            }
        }
}

impl AppState {
    /// Recomputes the route over the unvisited surveys.
    fn recompute_path(&mut self)
        requires
            old(self).wf_fields(),
        ensures
            final(self).wf(),
            is_route_for(final(self).surveys@, final(self).player_pos, final(self).zone@, final(self).path_order@),
            final(self).surveys@ == old(self).surveys@,
            final(self).zone == old(self).zone,
            final(self).mode == old(self).mode,
            final(self).record_buffer@ == old(self).record_buffer@,
            same_settings(*old(self), *final(self)),
    {
        self.path_order = find_path(self.player_pos, self.surveys.as_slice(), self.zone.as_str());
    }

    /// Takes in one sighting in record mode.
    pub fn push_sighting(&mut self, s: Survey)
        requires
            old(self).wf_fields(),
        ensures
            final(self).wf_fields(),
            final(self).zone == old(self).zone,
            record_step(*old(self), *final(self), s),
    {
        let ghost w = window(old(self).record_buffer@, s, old(self).batch_size as int);
        self.record_buffer.push(s);
        let batch = self.batch_size;
        if self.record_buffer.len() > batch {
            let excess = self.record_buffer.len() - batch;
            let mut kept: Vec<Survey> = Vec::new();
            let mut k: usize = excess;
            while k < self.record_buffer.len()
                invariant
                    excess <= k <= self.record_buffer@.len(),
                    kept@ =~= self.record_buffer@.subrange(excess as int, k as int),
                decreases self.record_buffer@.len() - k,
            {
                kept.push(self.record_buffer[k].duplicate());
                k = k + 1;
            }
            self.record_buffer = kept;
        }
        assert(self.record_buffer@ == w);
        if self.record_buffer.len() == batch {
            self.surveys = deduplicate_surveys(self.record_buffer.as_slice());
            self.record_buffer = Vec::new();
            self.mode = Mode::Find;
            self.recompute_path();
        }
    }

    /// Marks found the first survey in path order that is still pending.
    pub fn collect_next(&mut self) -> (r: bool)
        requires
            old(self).wf_fields(),
        ensures
            final(self).wf_fields(),
            final(self).zone == old(self).zone,
            collect_step(*old(self), *final(self), r),
    {
        let ghost s0 = self.surveys@;
        let ghost path = self.path_order@;
        let mut k: usize = 0;
        while k < self.path_order.len()
            invariant
                *self == *old(self),
                old(self).wf_fields(),
                self.surveys@ == s0,
                self.path_order@ == path,
                k <= path.len(),
                forall|j: int| 0 <= j < k ==> !is_pending(s0, path, j),
            decreases path.len() - k,
        {
            let idx = self.path_order[k];
            if idx < self.surveys.len() && !self.surveys[idx].found {
                let mut sv = self.surveys[idx].duplicate();
                sv.found = true;
                self.surveys.set(idx, sv);
                proof {
                    assert(is_pending(s0, path, k as int));
                    assert(self.surveys@ == s0.update(idx as int, mark_found(s0[idx as int])));
                }
                return true;
            }
            k = k + 1;
        }
        proof {
            assert(!exists|j: int| 0 <= j < path.len() && is_pending(s0, path, j));
        }
        false
    }

    /// Moves to `zone`; tells whether it differs from the current one.
    pub fn apply_zone(&mut self, zone: String) -> (r: bool)
        ensures
            r == (zone@ != old(self).zone@),
            final(self).zone@ == zone@,
            final(self).mode == old(self).mode,
            final(self).surveys@ == old(self).surveys@,
            final(self).path_order@ == old(self).path_order@,
            final(self).record_buffer@ == old(self).record_buffer@,
            same_settings(*old(self), *final(self)),
    {
        if zone != self.zone {
            self.zone = zone;
            true
        } else {
            false
        }
    }

    /// Applies one log line; returns whether the zone changed and whether anything did.
    pub fn process_line(&mut self, line: &str) -> (r: (bool, bool))
        requires
            old(self).wf_fields(),
        ensures
            final(self).wf_fields(),
            line_step(*old(self), *final(self), line@, r.0, r.1),
    {
        let mut zone_changed = false;
        if let Some(z) = parse_zone(line) {
            zone_changed = self.apply_zone(z);
        }
        let ghost mid = *self;
        let mut changed = zone_changed;
        match self.mode {
            Mode::Record => {
                if let Some(s) = parse_sighting(line) {
                    let ghost sg = s;
                    self.push_sighting(s);
                    changed = true;
                    assert(is_new_survey(sg, sighting_of_line(line@)->0) && record_step(
                        *old(self),
                        *self,
                        sg,
                    ));
                }
            },
            Mode::Find => {
                if is_collection(line) {
                    let got = self.collect_next();
                    changed = changed || got;
                    assert(collect_step(*old(self), *self, got));
                }
            },
        }
        (zone_changed, changed)
    }

    /// Applies the lines of one read in order, then, if anything changed in find mode,
    /// recomputes the route once. Returns whether the zone changed and whether anything did.
    pub fn process_lines(&mut self, lines: &Vec<String>) -> (r: (bool, bool))
        requires
            old(self).wf(),
        ensures
            final(self).wf(),
            same_settings(*old(self), *final(self)),
            !r.1 ==> body_unchanged(*old(self), *final(self)) && final(self).zone@ == old(
                self,
            ).zone@,
            r.0 ==> r.1,
            pass_result(*old(self), texts(lines@), r, *final(self)),
    {
        let mut zone_changed = false;
        let mut changed = false;
        let mut i: usize = 0;
        let ghost mut states: Seq<AppState> = seq![*self];
        let ghost mut zs: Seq<bool> = Seq::empty();
        let ghost mut cs: Seq<bool> = Seq::empty();
        while i < lines.len()
            invariant
                is_pass(*old(self), texts(lines@).subrange(0, i as int), states, zs, cs),
                states.last() == *self,
                zone_changed == zs.contains(true),
                changed == cs.contains(true),
                self.wf_fields(),
                old(self).wf(),
                i <= lines@.len(),
                same_settings(*old(self), *self),
                !changed ==> body_unchanged(*old(self), *self) && self.zone@ == old(self).zone@,
                self.mode == Mode::Record ==> self.surveys@ == old(self).surveys@
                    && self.path_order@ == old(self).path_order@,
                zone_changed ==> changed,
            decreases lines@.len() - i,
        {
            let ghost before = *self;
            let (z, c) = self.process_line(lines[i].as_str());
            proof {
                let t = texts(lines@);
                assert(t[i as int] == lines@[i as int]@);
                let ghost states2 = states.push(*self);
                let ghost zs2 = zs.push(z);
                let ghost cs2 = cs.push(c);
                assert(t.subrange(0, i as int + 1) =~= t.subrange(0, i as int).push(t[i as int]));
                assert forall|k: int| 0 <= k < i + 1 implies #[trigger] line_step(
                    states2[k],
                    states2[k + 1],
                    t.subrange(0, i as int + 1)[k],
                    zs2[k],
                    cs2[k],
                ) by {
                    if k < i {
                        assert(line_step(states[k], states[k + 1], t.subrange(0, i as int)[k], zs[k], cs[k]));
                    }
                }
                assert(zs2.contains(true) == (zs.contains(true) || z)) by {
                    if z {
                        assert(zs2[zs.len() as int] == true);
                    }
                    if zs.contains(true) {
                        let w = choose|w: int| 0 <= w < zs.len() && zs[w] == true;
                        assert(zs2[w] == true);
                    }
                }
                assert(cs2.contains(true) == (cs.contains(true) || c)) by {
                    if c {
                        assert(cs2[cs.len() as int] == true);
                    }
                    if cs.contains(true) {
                        let w = choose|w: int| 0 <= w < cs.len() && cs[w] == true;
                        assert(cs2[w] == true);
                    }
                }
                states = states2;
                zs = zs2;
                cs = cs2;
            }
            zone_changed = zone_changed || z;
            changed = changed || c;
            i = i + 1;
        }
        proof {
            assert(texts(lines@).subrange(0, lines@.len() as int) =~= texts(lines@));
        }
        if changed && self.mode == Mode::Find {
            self.recompute_path();
        }
        (zone_changed, changed)
    }

    /// Whether a log file of `file_len` bytes holds bytes not yet read.
    pub fn needs_read(&self, file_len: u64) -> (r: bool)
        ensures
            r == (self.log_directory is Some && file_len > self.file_position),
    {
        self.log_directory.is_some() && file_len > self.file_position
    }

    /// Takes in a successful read of the bytes from the stored offset up to `new_len`,
    /// split into lines; the offset advances to `new_len`.
    pub fn ingest(&mut self, new_len: u64, lines: &Vec<String>) -> (r: (bool, bool))
        requires
            old(self).wf(),
            new_len > old(self).file_position,
        ensures
            final(self).wf(),
            final(self).file_position == new_len,
            final(self).batch_size == old(self).batch_size,
            final(self).player_pos == old(self).player_pos,
            final(self).log_directory == old(self).log_directory,
            !r.1 ==> final(self).surveys@ == old(self).surveys@ && final(self).mode == old(
                self,
            ).mode && final(self).zone@ == old(self).zone@,
            r.0 ==> r.1,
            pass_result(AppState { file_position: new_len, ..*old(self) }, texts(lines@), r, *final(self)),
    {
        self.file_position = new_len;
        self.process_lines(lines)
    }

    /// Switches to find mode on "find", to record mode on anything else; entering find
    /// mode recomputes the route.
    pub fn set_mode(&mut self, mode: &str)
        requires
            old(self).wf(),
        ensures
            final(self).wf(),
            final(self).mode == if mode@ == "find"@ {
                Mode::Find
            } else {
                Mode::Record
            },
            final(self).mode == Mode::Find ==> is_route_for(final(self).surveys@, final(self).player_pos, final(self).zone@, final(self).path_order@),
            final(self).mode == Mode::Record ==> final(self).path_order@ == old(self).path_order@,
            final(self).surveys@ == old(self).surveys@,
            final(self).record_buffer@ == old(self).record_buffer@,
            final(self).zone == old(self).zone,
            same_settings(*old(self), *final(self)),
    {
        if str_eq(mode, "find") {
            self.mode = Mode::Find;
            self.recompute_path();
        } else {
            self.mode = Mode::Record;
        }
    }

    /// Sets the batch size, at least 1; the buffer keeps its most recent sightings that fit.
    pub fn set_batch_size(&mut self, n: usize)
        requires
            old(self).wf(),
        ensures
            final(self).wf(),
            final(self).batch_size == if n < 1 {
                1
            } else {
                n
            },
            final(self).record_buffer@ == if old(self).record_buffer@.len()
                > final(self).batch_size {
                old(self).record_buffer@.subrange(
                    old(self).record_buffer@.len() - final(self).batch_size,
                    old(self).record_buffer@.len() as int,
                )
            } else {
                old(self).record_buffer@
            },
            final(self).mode == old(self).mode,
            final(self).surveys@ == old(self).surveys@,
            final(self).path_order@ == old(self).path_order@,
            final(self).zone == old(self).zone,
            final(self).player_pos == old(self).player_pos,
            final(self).file_position == old(self).file_position,
            final(self).map_width == old(self).map_width,
            final(self).map_height == old(self).map_height,
            final(self).log_directory == old(self).log_directory,
    {
        let batch = if n < 1 {
            1
        } else {
            n
        };
        self.batch_size = batch;
        if self.record_buffer.len() > batch {
            let excess = self.record_buffer.len() - batch;
            let mut kept: Vec<Survey> = Vec::new();
            let mut k: usize = excess;
            while k < self.record_buffer.len()
                invariant
                    excess <= k <= self.record_buffer@.len(),
                    kept@ =~= self.record_buffer@.subrange(excess as int, k as int),
                decreases self.record_buffer@.len() - k,
            {
                kept.push(self.record_buffer[k].duplicate());
                k = k + 1;
            }
            self.record_buffer = kept;
        }
    }

    /// Sets the player's normalized position, each coordinate clamped to `[0, POS_SCALE]`;
    /// in find mode the route is recomputed.
    pub fn set_player_pos(&mut self, x: u32, y: u32)
        requires
            old(self).wf(),
        ensures
            final(self).wf(),
            final(self).player_pos == (
                if x > POS_SCALE {
                    POS_SCALE
                } else {
                    x
                },
                if y > POS_SCALE {
                    POS_SCALE
                } else {
                    y
                },
            ),
            final(self).mode == old(self).mode,
            final(self).surveys@ == old(self).surveys@,
            final(self).record_buffer@ == old(self).record_buffer@,
            final(self).zone == old(self).zone,
            old(self).mode == Mode::Record ==> final(self).path_order@ == old(self).path_order@,
            old(self).mode == Mode::Find ==> is_route_for(final(self).surveys@, final(self).player_pos, final(self).zone@, final(self).path_order@),
            final(self).map_width == old(self).map_width,
            final(self).map_height == old(self).map_height,
            final(self).log_directory == old(self).log_directory,
            final(self).file_position == old(self).file_position,
            final(self).batch_size == old(self).batch_size,
    {
        let cx = if x > POS_SCALE {
            POS_SCALE
        } else {
            x
        };
        let cy = if y > POS_SCALE {
            POS_SCALE
        } else {
            y
        };
        self.player_pos = (cx, cy);
        if self.mode == Mode::Find {
            self.recompute_path();
        }
    }

    /// Sets the map's display size, each side at least 1.
    pub fn set_map_size(&mut self, w: u32, h: u32)
        requires
            old(self).wf(),
        ensures
            final(self).wf(),
            final(self).map_width == if w < 1 {
                1
            } else {
                w
            },
            final(self).map_height == if h < 1 {
                1
            } else {
                h
            },
            final(self).mode == old(self).mode,
            final(self).surveys@ == old(self).surveys@,
            final(self).path_order@ == old(self).path_order@,
            final(self).record_buffer@ == old(self).record_buffer@,
            final(self).zone == old(self).zone,
            final(self).player_pos == old(self).player_pos,
            final(self).batch_size == old(self).batch_size,
            final(self).log_directory == old(self).log_directory,
            final(self).file_position == old(self).file_position,
    {
        self.map_width = if w < 1 {
            1
        } else {
            w
        };
        self.map_height = if h < 1 {
            1
        } else {
            h
        };
    }

    /// Sets the zone; in find mode the route is recomputed.
    pub fn set_zone(&mut self, zone: String)
        requires
            old(self).wf(),
        ensures
            final(self).wf(),
            final(self).zone@ == zone@,
            final(self).mode == old(self).mode,
            final(self).surveys@ == old(self).surveys@,
            final(self).record_buffer@ == old(self).record_buffer@,
            same_settings(*old(self), *final(self)),
            old(self).mode == Mode::Record ==> final(self).path_order@ == old(self).path_order@,
            old(self).mode == Mode::Find ==> is_route_for(final(self).surveys@, final(self).player_pos, final(self).zone@, final(self).path_order@),
    {
        self.zone = zone;
        if self.mode == Mode::Find {
            self.recompute_path();
        }
    }

    /// Flips the found flag of survey `index`, if there is one, and recomputes the route.
    pub fn toggle_found(&mut self, index: usize)
        requires
            old(self).wf(),
        ensures
            final(self).wf(),
            index < old(self).surveys@.len() ==> final(self).surveys@ == old(self).surveys@.update(
                index as int,
                Survey {
                    found: !old(self).surveys@[index as int].found,
                    ..old(self).surveys@[index as int]
                },
            ),
            index < old(self).surveys@.len() ==> is_route_for(final(self).surveys@, final(self).player_pos, final(self).zone@, final(self).path_order@),
            index >= old(self).surveys@.len() ==> final(self).surveys@ == old(self).surveys@
                && final(self).path_order@ == old(self).path_order@,
            final(self).mode == old(self).mode,
            final(self).record_buffer@ == old(self).record_buffer@,
            final(self).zone == old(self).zone,
            same_settings(*old(self), *final(self)),
    {
        if index < self.surveys.len() {
            let mut sv = self.surveys[index].duplicate();
            sv.found = !sv.found;
            self.surveys.set(index, sv);
            self.recompute_path();
        }
    }

    /// Drops all surveys, the buffer and the route, and returns to record mode.
    pub fn clear_surveys(&mut self)
        requires
            old(self).wf(),
        ensures
            final(self).wf(),
            final(self).mode == Mode::Record,
            final(self).surveys@.len() == 0,
            final(self).record_buffer@.len() == 0,
            final(self).path_order@.len() == 0,
            final(self).zone == old(self).zone,
            same_settings(*old(self), *final(self)),
    {
        self.surveys = Vec::new();
        self.record_buffer = Vec::new();
        self.path_order = Vec::new();
        self.mode = Mode::Record;
        assert(self.path_order@ =~= Seq::<usize>::empty());
    }

    /// Points ingestion at a new log directory, to be read from its start.
    pub fn set_log_directory(&mut self, path: String)
        requires
            old(self).wf(),
        ensures
            final(self).wf(),
            final(self).log_directory == Some(path),
            final(self).file_position == 0,
            final(self).mode == old(self).mode,
            final(self).surveys@ == old(self).surveys@,
            final(self).path_order@ == old(self).path_order@,
            final(self).record_buffer@ == old(self).record_buffer@,
            final(self).zone == old(self).zone,
            final(self).player_pos == old(self).player_pos,
            final(self).batch_size == old(self).batch_size,
            final(self).map_width == old(self).map_width,
            final(self).map_height == old(self).map_height,
    {
        self.log_directory = Some(path);
        self.file_position = 0;
    }
}

} // verus!
