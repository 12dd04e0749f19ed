use vstd::prelude::*;
use std::collections::HashMap;

verus! {

/// A freehand stroke: samples of four values each (x, y, pressure,
/// timestamp), a packed RGBA stroke colour, a stroke width and whether the
/// path is closed.
pub struct DrawPath<T> {
    pub id: i32,
    pub points: Vec<T>,
    pub color: u32,
    pub width: T,
    pub closed: bool,
}

impl<T> DrawPath<T> {
    /// Whole samples only.
    pub open spec fn wf(&self) -> bool {
        self.points@.len() % 4 == 0
    }
}

/// Freehand paths keyed by id.
pub struct PathStore<T> {
    paths: HashMap<i32, DrawPath<T>>,
}

impl<T> View for PathStore<T> {
    type V = Map<i32, DrawPath<T>>;

    closed spec fn view(&self) -> Map<i32, DrawPath<T>> {
        self.paths@
    }
}

impl<T> PathStore<T> {
    /// Each path is stored under its own id and holds whole samples.
    pub open spec fn wf(&self) -> bool {
        forall|id: i32| #[trigger]
            self@.contains_key(id) ==> self@[id].wf() && self@[id].id == id
    }

    pub fn new() -> (r: PathStore<T>)
        ensures
            r.wf(),
            r@ == Map::<i32, DrawPath<T>>::empty(),
    {
        PathStore { paths: HashMap::new() }
    }

    /// Number of paths.
    pub fn get_draw_paths_count(&self) -> (r: usize)
        ensures
            r == self@.len(),
    {
        self.paths.len()
    }

    /// All paths, keyed by id.
    pub fn paths(&self) -> (r: &HashMap<i32, DrawPath<T>>)
        ensures
            r@ == self@,
    {
        &self.paths
    }

    /// Starts (or restarts) the path `id` with the single sample
    /// `(x, y, pressure, time)`, open, with the given colour and width.
    pub fn start_draw_path(
        &mut self,
        id: i32,
        x: T,
        y: T,
        pressure: T,
        time: T,
        color: u32,
        width: T,
    )
        requires
            old(self).wf(),
        ensures
            final(self).wf(),
            final(self)@ == old(self)@.insert(id, final(self)@[id]),
            final(self)@[id].id == id,
            final(self)@[id].points@ == seq![x, y, pressure, time],
            final(self)@[id].color == color,
            final(self)@[id].width == width,
            !final(self)@[id].closed,
    {
        let mut points: Vec<T> = Vec::new();
        points.push(x);
        points.push(y);
        points.push(pressure);
        points.push(time);
        let path = DrawPath { id, points, color, width, closed: false };
        self.paths.insert(id, path);
        proof {
            assert(self@[id].points@ =~= seq![x, y, pressure, time]);
            assert(self@ =~= old(self)@.insert(id, self@[id]));
            assert forall|k: i32| #[trigger] self@.contains_key(k) implies self@[k].wf()
                && self@[k].id == k by {
                if k != id {
                    assert(old(self)@.contains_key(k));
                }
            }
        }
    }

    /// Appends the sample `(x, y, pressure, time)` to the path `id`. Fails,
    /// changing nothing, when there is no such path.
    pub fn add_draw_point(&mut self, id: i32, x: T, y: T, pressure: T, time: T) -> (r: bool)
        requires
            old(self).wf(),
        ensures
            final(self).wf(),
            r == old(self)@.contains_key(id),
            !r ==> final(self)@ == old(self)@,
            r ==> final(self)@ == old(self)@.insert(id, final(self)@[id]),
            r ==> final(self)@[id].points@ == old(self)@[id].points@ + seq![x, y, pressure, time],
            r ==> final(self)@[id].id == id,
            r ==> final(self)@[id].color == old(self)@[id].color,
            r ==> final(self)@[id].width == old(self)@[id].width,
            r ==> final(self)@[id].closed == old(self)@[id].closed,
    {
        match self.paths.remove(&id) {
            Some(path) => {
                let mut path = path;
                let ghost before = path.points@;
                path.points.push(x);
                path.points.push(y);
                path.points.push(pressure);
                path.points.push(time);
                self.paths.insert(id, path);
                proof {
                    assert(self@[id].points@ =~= before + seq![x, y, pressure, time]);
                    assert(self@ =~= old(self)@.insert(id, self@[id]));
                    assert forall|k: i32| #[trigger] self@.contains_key(k) implies self@[k].wf()
                        && self@[k].id == k by {
                        if k != id {
                            assert(old(self)@.contains_key(k));
                        }
                    }
                }
                true
            },
            None => {
                assert(self@ =~= old(self)@);
                false
            },
        }
    }

    /// Sets whether the path `id` is closed. Fails, changing nothing, when
    /// there is no such path.
    pub fn finish_draw_path(&mut self, id: i32, closed: bool) -> (r: bool)
        requires
            old(self).wf(),
        ensures
            final(self).wf(),
            r == old(self)@.contains_key(id),
            !r ==> final(self)@ == old(self)@,
            r ==> final(self)@ == old(self)@.insert(id, final(self)@[id]),
            r ==> final(self)@[id].points@ == old(self)@[id].points@,
            r ==> final(self)@[id].id == id,
            r ==> final(self)@[id].color == old(self)@[id].color,
            r ==> final(self)@[id].width == old(self)@[id].width,
            r ==> final(self)@[id].closed == closed,
    {
        match self.paths.remove(&id) {
            Some(path) => {
                let mut path = path;
                path.closed = closed;
                self.paths.insert(id, path);
                proof {
                    assert(self@ =~= old(self)@.insert(id, self@[id]));
                    assert forall|k: i32| #[trigger] self@.contains_key(k) implies self@[k].wf()
                        && self@[k].id == k by {
                        if k != id {
                            assert(old(self)@.contains_key(k));
                        }
                    }
                }
                true
            },
            None => {
                assert(self@ =~= old(self)@);
                false
            },
        }
    }

    /// Deletes the path `id`; returns whether it existed.
    pub fn remove_draw_path(&mut self, id: i32) -> (r: bool)
        requires
            old(self).wf(),
        ensures
            final(self).wf(),
            r == old(self)@.contains_key(id),
            final(self)@ == old(self)@.remove(id),
    {
        let r = self.paths.remove(&id).is_some();
        proof {
            assert forall|k: i32| #[trigger] self@.contains_key(k) implies self@[k].wf()
                && self@[k].id == k by {
                assert(old(self)@.contains_key(k));
            }
        }
        r
    }

    /// Deletes every path.
    pub fn clear_draw_paths(&mut self)
        ensures
            final(self).wf(),
            final(self)@ == Map::<i32, DrawPath<T>>::empty(),
    {
        self.paths.clear();
    }
}

} // verus!
