use vstd::prelude::*;
use crate::ds::{Viewport, Frame, frame_view, resized, cover_ratio, PANORAMA_WIDTH};
use crate::ratio::Ratio;
use crate::text::{TraceRecord, trace_record, user_viewport, line_bytes, parse_trace_line, parse_user_line};

verus! {

/// Where a frame is served from: the first-level viewport, the enlarged
/// second-level viewport, or the full frame.
#[derive(Debug, Copy, Clone)]
pub enum CacheLevel {
    LevelOne,
    LevelTwo,
    LevelThree,
}

pub open spec fn level_rank(l: CacheLevel) -> int {
    match l {
        CacheLevel::LevelOne => 1,
        CacheLevel::LevelTwo => 2,
        CacheLevel::LevelThree => 3,
    }
}

/// How one frame the user watched was served.
#[derive(Debug, Copy, Clone)]
pub struct Hit {
    pub index: usize,
    pub ratio: Ratio,
    pub path: usize,
    pub cache_level: CacheLevel,
    pub width: usize,
    pub height: usize,
}

/// An object of the video: it is visible from frame `from_start` to frame
/// `from_end` (counted from 1, end excluded), and `cluster` lists the
/// positions of its viewports within each frame of the trace dump.
#[derive(Debug, Clone)]
pub struct VideoObject {
    pub from_start: usize,
    pub from_end: usize,
    pub size: usize,
    pub cluster: Vec<usize>,
}

/// The viewport that a trace dump record describes.
pub open spec fn trace_viewport(r: TraceRecord) -> Viewport {
    Viewport { conf: 100, x: r.x, y: r.y, width: r.width, height: r.height }
}

pub type FrameView = (i32, Seq<Viewport>);

pub open spec fn frames_view(f: Seq<Frame>) -> Seq<FrameView> {
    f.map_values(|fr: Frame| frame_view(fr))
}

/// Reading the records in order: the frames completed so far, the
/// viewports of the frame being read, and the last frame id read.  A record
/// of object 0 starts a new frame; the frame it completes is kept under the
/// new record's frame id, unless that id is 1.
pub open spec fn read_traces(recs: Seq<TraceRecord>) -> (Seq<FrameView>, Seq<Viewport>, i32)
    decreases recs.len(),
{
    if recs.len() == 0 {
        (Seq::empty(), Seq::empty(), 0)
    } else {
        let prev = read_traces(recs.drop_last());
        let r = recs.last();
        if r.object_id == 0 {
            let done = if r.frame_id != 1 {
                prev.0.push((r.frame_id, prev.1))
            } else {
                prev.0
            };
            (done, seq![trace_viewport(r)], r.frame_id)
        } else {
            (prev.0, prev.1.push(trace_viewport(r)), r.frame_id)
        }
    }
}

/// The frames of a trace dump: those completed while reading, then the one
/// being read at the end, under the last frame id read.
pub open spec fn frames_of(recs: Seq<TraceRecord>) -> Seq<FrameView> {
    let st = read_traces(recs);
    st.0.push((st.2, st.1))
}

pub open spec fn dump_readable(lines: Seq<String>) -> bool {
    forall|i: int| 0 <= i < lines.len() ==> (#[trigger] trace_record(line_bytes(lines[i]@))) is Some
}

pub open spec fn dump_records(lines: Seq<String>) -> Seq<TraceRecord> {
    Seq::new(lines.len(), |i: int| trace_record(line_bytes(lines[i]@)).unwrap())
}

/// Reads the lines of a trace dump into frames; `None` when a line cannot be
/// read.
pub fn read_frames(dump_lines: &Vec<String>) -> (r: Option<Vec<Frame>>)
    ensures
        r is Some <==> dump_readable(dump_lines@),
        r matches Some(f) ==> frames_view(f@) == frames_of(dump_records(dump_lines@)),
{
    let ghost recs = dump_records(dump_lines@);
    let mut traces: Vec<Viewport> = Vec::new();
    let mut frame_id: i32 = 0;
    let mut frame_list: Vec<Frame> = Vec::new();
    let mut i: usize = 0;
    while i < dump_lines.len()
        invariant
            i <= dump_lines.len(),
            recs == dump_records(dump_lines@),
            forall|j: int| 0 <= j < i ==> (#[trigger] trace_record(line_bytes(dump_lines@[j]@))) is Some,
            read_traces(recs.take(i as int)) == (frames_view(frame_list@), traces@, frame_id),
        decreases dump_lines.len() - i,
    {
        let rec = match parse_trace_line(dump_lines[i].as_str()) {
            Some(rec) => rec,
            None => {
                return None;
            },
        };
        proof {
            assert(recs[i as int] == rec);
            assert(recs.take(i + 1).drop_last() == recs.take(i as int));
        }
        let viewport = Viewport::new(100, rec.x, rec.y, rec.width, rec.height);
        frame_id = rec.frame_id;
        if rec.object_id == 0 {
            if frame_id != 1 {
                let f = Frame::new(frame_id, &traces);
                frame_list.push(f);
                assert(frames_view(frame_list@) == read_traces(recs.take(i + 1)).0);
            }
            traces = Vec::new();
        }
        traces.push(viewport);
        i = i + 1;
        assert(read_traces(recs.take(i as int)) == (frames_view(frame_list@), traces@, frame_id));
    }
    assert(recs.take(dump_lines.len() as int) == recs);
    let last = Frame::new(frame_id, &traces);
    frame_list.push(last);
    assert(frames_view(frame_list@) == frames_of(recs));
    Some(frame_list)
}

pub open spec fn paths_view(p: Seq<Vec<Viewport>>) -> Seq<Seq<Viewport>> {
    p.map_values(|v: Vec<Viewport>| v@)
}

/// The `j`-th viewport of object `o` in frame `i` exists and can be resized
/// to the field of view.
pub open spec fn cell_ok(
    frames: Seq<FrameView>,
    o: VideoObject,
    i: int,
    j: int,
    width: usize,
    height: usize,
) -> bool {
    let c = o.cluster@[j];
    c < frames[i].1.len() && resized(frames[i].1[c as int], width, height) is Some
}

/// The frame range of `o` lies within the frames, counted from 1, and each
/// of its viewports in that range exists and can be resized.
pub open spec fn object_ok(frames: Seq<FrameView>, o: VideoObject, width: usize, height: usize) -> bool {
    &&& o.from_start >= 1
    &&& o.from_end >= 1
    &&& o.from_start <= o.from_end
    &&& o.from_end - 1 <= frames.len()
    &&& forall|i: int, j: int|
        o.from_start - 1 <= i < o.from_end - 1 && 0 <= j < o.cluster@.len() ==> #[trigger] cell_ok(
            frames,
            o,
            i,
            j,
            width,
            height,
        )
}

pub open spec fn objects_ok(frames: Seq<FrameView>, objs: Seq<VideoObject>, width: usize, height: usize) -> bool {
    forall|k: int| 0 <= k < objs.len() ==> object_ok(frames, #[trigger] objs[k], width, height)
}

/// One path for each frame in the range of `o`: its viewports in that frame,
/// in the order of `cluster`, resized to the field of view.
pub open spec fn object_paths(
    frames: Seq<FrameView>,
    o: VideoObject,
    width: usize,
    height: usize,
) -> Seq<Seq<Viewport>> {
    Seq::new(
        (o.from_end - o.from_start) as nat,
        |i: int|
            Seq::new(
                o.cluster@.len(),
                |j: int|
                    resized(frames[o.from_start - 1 + i].1[o.cluster@[j] as int], width, height).unwrap(),
            ),
    )
}

/// The paths of all objects, one object after the other.
pub open spec fn all_paths(
    frames: Seq<FrameView>,
    objs: Seq<VideoObject>,
    width: usize,
    height: usize,
) -> Seq<Seq<Viewport>>
    decreases objs.len(),
{
    if objs.len() == 0 {
        Seq::empty()
    } else {
        all_paths(frames, objs.drop_last(), width, height) + object_paths(
            frames,
            objs.last(),
            width,
            height,
        )
    }
}

/// Appends to `out` the paths of object `o`; false, with `out` in no
/// particular state, when the object does not fit the frames.
fn append_object_paths(
    frames: &Vec<Frame>,
    o: &VideoObject,
    width: usize,
    height: usize,
    out: &mut Vec<Vec<Viewport>>,
) -> (ok: bool)
    ensures
        ok == object_ok(frames_view(frames@), *o, width, height),
        ok ==> paths_view(final(out)@) == paths_view(old(out)@) + object_paths(
            frames_view(frames@),
            *o,
            width,
            height,
        ),
{
    let ghost fv = frames_view(frames@);
    let ghost base = paths_view(out@);
    if o.from_start == 0 || o.from_end == 0 {
        return false;
    }
    let start = o.from_start - 1;
    let end = o.from_end - 1;
    if start > end || end > frames.len() {
        return false;
    }
    let ghost expected = object_paths(fv, *o, width, height);
    let mut fi = start;
    while fi < end
        invariant
            start <= fi <= end <= frames.len(),
            start == o.from_start - 1,
            end == o.from_end - 1,
            fv == frames_view(frames@),
            expected == object_paths(fv, *o, width, height),
            paths_view(out@) == base + expected.take(fi - start),
            base == paths_view(old(out)@),
            forall|i: int, j: int|
                start <= i < fi && 0 <= j < o.cluster@.len() ==> #[trigger] cell_ok(
                    fv,
                    *o,
                    i,
                    j,
                    width,
                    height,
                ),
        decreases end - fi,
    {
        let traces = &frames[fi].traces;
        let mut path: Vec<Viewport> = Vec::new();
        let mut j: usize = 0;
        while j < o.cluster.len()
            invariant
                start <= fi < end <= frames.len(),
                start == o.from_start - 1,
                end == o.from_end - 1,
                fv == frames_view(frames@),
                traces@ == fv[fi as int].1,
                j <= o.cluster@.len(),
                path@ == expected[fi - start].take(j as int),
                expected == object_paths(fv, *o, width, height),
                forall|jj: int| 0 <= jj < j ==> #[trigger] cell_ok(fv, *o, fi as int, jj, width, height),
            decreases o.cluster.len() - j,
        {
            let c = o.cluster[j];
            if c >= traces.len() {
                assert(!cell_ok(fv, *o, fi as int, j as int, width, height));
                return false;
            }
            let v = match Viewport::checked_create_new_with_size(&traces[c], width, height) {
                Some(v) => v,
                None => {
                    assert(!cell_ok(fv, *o, fi as int, j as int, width, height));
                    return false;
                },
            };
            path.push(v);
            j = j + 1;
            assert(path@ == expected[fi - start].take(j as int));
        }
        assert(expected[fi - start].take(j as int) == expected[fi - start]);
        assert(expected.take(fi - start + 1) == expected.take(fi - start).push(expected[fi - start]));
        let ghost prev = out@;
        let ghost pv = path@;
        out.push(path);
        assert(paths_view(out@) =~= paths_view(prev).push(pv));
        assert(base + expected.take(fi - start + 1) =~= (base + expected.take(fi - start)).push(pv));
        fi = fi + 1;
    }
    assert(expected.take(end - start) == expected);
    true
}

/// The paths of all objects over the frames; `None` when an object does not
/// fit the frames.
fn build_paths(frames: &Vec<Frame>, objects: &Vec<VideoObject>, width: usize, height: usize) -> (r:
    Option<Vec<Vec<Viewport>>>)
    ensures
        r is Some <==> objects_ok(frames_view(frames@), objects@, width, height),
        r matches Some(p) ==> paths_view(p@) == all_paths(
            frames_view(frames@),
            objects@,
            width,
            height,
        ),
{
    let ghost fv = frames_view(frames@);
    let mut out: Vec<Vec<Viewport>> = Vec::new();
    let mut k: usize = 0;
    while k < objects.len()
        invariant
            k <= objects.len(),
            fv == frames_view(frames@),
            forall|kk: int| 0 <= kk < k ==> object_ok(fv, #[trigger] objects@[kk], width, height),
            paths_view(out@) == all_paths(fv, objects@.take(k as int), width, height),
        decreases objects.len() - k,
    {
        if !append_object_paths(frames, &objects[k], width, height, &mut out) {
            return None;
        }
        proof {
            assert(objects@.take(k + 1).drop_last() == objects@.take(k as int));
        }
        k = k + 1;
    }
    assert(objects@.take(objects.len() as int) == objects@);
    Some(out)
}

pub open spec fn user_readable(lines: Seq<String>) -> bool {
    forall|i: int| 0 <= i < lines.len() ==> (#[trigger] user_viewport(line_bytes(lines[i]@))) is Some
}

pub open spec fn user_viewports(lines: Seq<String>) -> Seq<Viewport> {
    Seq::new(lines.len(), |i: int| user_viewport(line_bytes(lines[i]@)).unwrap())
}

/// Reads the lines of a user's viewport file; `None` when a line cannot be
/// read.
fn read_user_viewports(lines: &Vec<String>) -> (r: Option<Vec<Viewport>>)
    ensures
        r is Some <==> user_readable(lines@),
        r matches Some(v) ==> v@ == user_viewports(lines@),
{
    let mut out: Vec<Viewport> = Vec::new();
    let mut i: usize = 0;
    while i < lines.len()
        invariant
            i <= lines.len(),
            forall|j: int| 0 <= j < i ==> (#[trigger] user_viewport(line_bytes(lines@[j]@))) is Some,
            out@ == user_viewports(lines@).take(i as int),
        decreases lines.len() - i,
    {
        let v = match parse_user_line(lines[i].as_str()) {
            Some(v) => v,
            None => {
                return None;
            },
        };
        out.push(v);
        i = i + 1;
        assert(out@ == user_viewports(lines@).take(i as int));
    }
    assert(user_viewports(lines@).take(lines.len() as int) == user_viewports(lines@));
    Some(out)
}

/// The simulation of one user watching a video, with the paths of its
/// objects as the candidate viewports of each frame.
pub struct Simulator {
    pub user_file: String,
    pub dump_file: String,
    pub cluster_json: String,
    pub threshold: Ratio,
    pub segment: usize,
    pub fov_width: usize,
    pub fov_height: usize,
    pub path_list: Vec<Vec<Viewport>>,
    pub user_fov_list: Vec<Viewport>,
    pub current_cache_level: CacheLevel,
    pub level_two_width: usize,
    pub level_two_height: usize,
    pub hit_list: Vec<Hit>,
}

/// Two simulators with the same file names and settings.
pub open spec fn same_settings(a: Simulator, b: Simulator) -> bool {
    &&& a.user_file == b.user_file
    &&& a.dump_file == b.dump_file
    &&& a.cluster_json == b.cluster_json
    &&& a.threshold == b.threshold
    &&& a.segment == b.segment
    &&& a.fov_width == b.fov_width
    &&& a.fov_height == b.fov_height
    &&& a.current_cache_level == b.current_cache_level
    &&& a.level_two_width == b.level_two_width
    &&& a.level_two_height == b.level_two_height
}

/// The trace dump can be read, and, where it was read to its end, the video
/// objects fit its frames.
pub open spec fn trace_input_ok(
    dump_lines: Seq<String>,
    dump_complete: bool,
    objects: Seq<VideoObject>,
    width: usize,
    height: usize,
) -> bool {
    &&& dump_readable(dump_lines)
    &&& dump_complete ==> objects_ok(frames_of(dump_records(dump_lines)), objects, width, height)
}

/// The paths that reading the trace dump adds: none where the dump could not
/// be read to its end, else those of all objects over its frames.
pub open spec fn trace_paths(
    dump_lines: Seq<String>,
    dump_complete: bool,
    objects: Seq<VideoObject>,
    width: usize,
    height: usize,
) -> Seq<Seq<Viewport>> {
    if dump_complete {
        all_paths(frames_of(dump_records(dump_lines)), objects, width, height)
    } else {
        Seq::empty()
    }
}

impl Simulator {
    /// Reads the trace dump and adds the paths of the video objects to
    /// `path_list`, as `parse_tracing_to_path_list` does; returns false, with
    /// nothing changed, exactly on the inputs that `parse_tracing_to_path_list`
    /// does not accept (a line that cannot be read, an object outside the
    /// frames).
    fn try_parse_tracing_to_path_list(
        &mut self,
        dump_lines: &Vec<String>,
        dump_complete: bool,
        objects: &Vec<VideoObject>,
    ) -> (ok: bool)
        ensures
            ok == trace_input_ok(
                dump_lines@,
                dump_complete,
                objects@,
                old(self).fov_width,
                old(self).fov_height,
            ),
            ok ==> paths_view(final(self).path_list@) == paths_view(old(self).path_list@)
                + trace_paths(
                dump_lines@,
                dump_complete,
                objects@,
                old(self).fov_width,
                old(self).fov_height,
            ),
            !ok ==> final(self).path_list@ == old(self).path_list@,
            same_settings(*final(self), *old(self)),
            final(self).user_fov_list@ == old(self).user_fov_list@,
            final(self).hit_list@ == old(self).hit_list@,
    {
        let frame_list = match read_frames(dump_lines) {
            Some(f) => f,
            None => {
                return false;
            },
        };
        if !dump_complete {
            assert(paths_view(self.path_list@) == paths_view(old(self).path_list@) + trace_paths(
                dump_lines@,
                dump_complete,
                objects@,
                self.fov_width,
                self.fov_height,
            ));
            return true;
        }
        let paths = match build_paths(&frame_list, objects, self.fov_width, self.fov_height) {
            Some(p) => p,
            None => {
                return false;
            },
        };
        let ghost added = paths_view(paths@);
        let ghost start = paths_view(self.path_list@);
        let mut i: usize = 0;
        while i < paths.len()
            invariant
                i <= paths.len(),
                added == paths_view(paths@),
                paths_view(self.path_list@) == start + added.take(i as int),
                same_settings(*self, *old(self)),
                self.user_fov_list@ == old(self).user_fov_list@,
                self.hit_list@ == old(self).hit_list@,
            decreases paths.len() - i,
        {
            let ghost prev = self.path_list@;
            let p = paths[i].clone();
            assert(p@ == paths@[i as int]@);
            self.path_list.push(p);
            assert(paths_view(self.path_list@) =~= paths_view(prev).push(added[i as int]));
            assert(added.take(i + 1) =~= added.take(i as int).push(added[i as int]));
            i = i + 1;
        }
        assert(added.take(paths.len() as int) == added);
        true
    }

    /// Reads the user's viewports and adds them to `user_fov_list`, as
    /// `parse_user_data` does; returns false, with nothing changed, exactly
    /// where a line cannot be read.
    fn try_parse_user_data(&mut self, user_lines: &Vec<String>) -> (ok: bool)
        ensures
            ok == user_readable(user_lines@),
            ok ==> final(self).user_fov_list@ == old(self).user_fov_list@ + user_viewports(
                user_lines@,
            ),
            !ok ==> final(self).user_fov_list@ == old(self).user_fov_list@,
            same_settings(*final(self), *old(self)),
            final(self).path_list@ == old(self).path_list@,
            final(self).hit_list@ == old(self).hit_list@,
    {
        let viewports = match read_user_viewports(user_lines) {
            Some(v) => v,
            None => {
                return false;
            },
        };
        let ghost start = self.user_fov_list@;
        let mut i: usize = 0;
        while i < viewports.len()
            invariant
                i <= viewports.len(),
                self.user_fov_list@ == start + viewports@.take(i as int),
                same_settings(*self, *old(self)),
                self.path_list@ == old(self).path_list@,
                self.hit_list@ == old(self).hit_list@,
            decreases viewports.len() - i,
        {
            self.user_fov_list.push(viewports[i]);
            assert(viewports@.take(i + 1) == viewports@.take(i as int).push(viewports@[i as int]));
            i = i + 1;
        }
        assert(viewports@.take(viewports.len() as int) == viewports@);
        true
    }

    /// Reads the trace dump and adds the paths of the video objects to
    /// `path_list`.  `dump_lines` are the lines read from the dump;
    /// `dump_complete` is false where reading stopped on an error, in which
    /// case no path is added.  Every line must be readable and, where the dump
    /// was read to its end, every object must fit the frames.
    pub fn parse_tracing_to_path_list(
        &mut self,
        dump_lines: &Vec<String>,
        dump_complete: bool,
        objects: &Vec<VideoObject>,
    )
        requires
            trace_input_ok(
                dump_lines@,
                dump_complete,
                objects@,
                old(self).fov_width,
                old(self).fov_height,
            ),
        ensures
            paths_view(final(self).path_list@) == paths_view(old(self).path_list@) + trace_paths(
                dump_lines@,
                dump_complete,
                objects@,
                old(self).fov_width,
                old(self).fov_height,
            ),
            same_settings(*final(self), *old(self)),
            final(self).user_fov_list@ == old(self).user_fov_list@,
            final(self).hit_list@ == old(self).hit_list@,
    {
        let ok = self.try_parse_tracing_to_path_list(dump_lines, dump_complete, objects);
        assert(ok);
    }

    /// Reads the user's viewports and adds them to `user_fov_list`; every
    /// line must be readable.
    pub fn parse_user_data(&mut self, user_lines: &Vec<String>)
        requires
            user_readable(user_lines@),
        ensures
            final(self).user_fov_list@ == old(self).user_fov_list@ + user_viewports(user_lines@),
            same_settings(*final(self), *old(self)),
            final(self).path_list@ == old(self).path_list@,
            final(self).hit_list@ == old(self).hit_list@,
    {
        let ok = self.try_parse_user_data(user_lines);
        assert(ok);
    }

    /// A simulator over the given inputs, or `None` where reading them would
    /// fail.  The files themselves are read by the caller: `dump_lines` are
    /// the lines of the trace dump (`dump_complete` false where reading it
    /// stopped on an error, in which case the video objects are not used),
    /// `objects` the video objects, `user_lines` the lines of the user's
    /// viewport file.
    pub fn try_new(
        user_file: &String,
        dump_file: &String,
        cluster_json: &String,
        threshold: Ratio,
        segment: usize,
        fov_width: usize,
        fov_height: usize,
        level_two_width: usize,
        level_two_height: usize,
        dump_lines: &Vec<String>,
        dump_complete: bool,
        objects: &Vec<VideoObject>,
        user_lines: &Vec<String>,
    ) -> (r: Option<Simulator>)
        ensures
            r is Some <==> trace_input_ok(
                dump_lines@,
                dump_complete,
                objects@,
                fov_width,
                fov_height,
            ) && user_readable(user_lines@),
            r matches Some(s) ==> {
                &&& s.user_file == *user_file
                &&& s.dump_file == *dump_file
                &&& s.cluster_json == *cluster_json
                &&& s.threshold == threshold
                &&& s.segment == segment
                &&& s.fov_width == fov_width
                &&& s.fov_height == fov_height
                &&& s.level_two_width == level_two_width
                &&& s.level_two_height == level_two_height
                &&& s.current_cache_level == CacheLevel::LevelOne
                &&& paths_view(s.path_list@) == trace_paths(
                    dump_lines@,
                    dump_complete,
                    objects@,
                    fov_width,
                    fov_height,
                )
                &&& s.user_fov_list@ == user_viewports(user_lines@)
                &&& s.hit_list@.len() == 0
            },
    {
        let mut sim = Simulator {
            user_file: user_file.clone(),
            dump_file: dump_file.clone(),
            cluster_json: cluster_json.clone(),
            threshold,
            segment,
            fov_width,
            fov_height,
            path_list: Vec::new(),
            user_fov_list: Vec::new(),
            current_cache_level: CacheLevel::LevelOne,
            level_two_width,
            level_two_height,
            hit_list: Vec::new(),
        };
        assert(paths_view(sim.path_list@) =~= Seq::<Seq<Viewport>>::empty());
        if !sim.try_parse_tracing_to_path_list(dump_lines, dump_complete, objects) {
            return None;
        }
        assert(paths_view(sim.path_list@) =~= trace_paths(
            dump_lines@,
            dump_complete,
            objects@,
            fov_width,
            fov_height,
        ));
        if !sim.try_parse_user_data(user_lines) {
            return None;
        }
        assert(sim.user_fov_list@ =~= user_viewports(user_lines@));
        Some(sim)
    }

    /// A simulator over the given inputs (see `try_new`), on inputs that can
    /// be read.
    pub fn new(
        user_file: &String,
        dump_file: &String,
        cluster_json: &String,
        threshold: Ratio,
        segment: usize,
        fov_width: usize,
        fov_height: usize,
        level_two_width: usize,
        level_two_height: usize,
        dump_lines: &Vec<String>,
        dump_complete: bool,
        objects: &Vec<VideoObject>,
        user_lines: &Vec<String>,
    ) -> (s: Simulator)
        requires
            trace_input_ok(dump_lines@, dump_complete, objects@, fov_width, fov_height),
            user_readable(user_lines@),
        ensures
            s.user_file == *user_file,
            s.dump_file == *dump_file,
            s.cluster_json == *cluster_json,
            s.threshold == threshold,
            s.segment == segment,
            s.fov_width == fov_width,
            s.fov_height == fov_height,
            s.level_two_width == level_two_width,
            s.level_two_height == level_two_height,
            s.current_cache_level == CacheLevel::LevelOne,
            paths_view(s.path_list@) == trace_paths(
                dump_lines@,
                dump_complete,
                objects@,
                fov_width,
                fov_height,
            ),
            s.user_fov_list@ == user_viewports(user_lines@),
            s.hit_list@.len() == 0,
    {
        let mut sim = Simulator {
            user_file: user_file.clone(),
            dump_file: dump_file.clone(),
            cluster_json: cluster_json.clone(),
            threshold,
            segment,
            fov_width,
            fov_height,
            path_list: Vec::new(),
            user_fov_list: Vec::new(),
            current_cache_level: CacheLevel::LevelOne,
            level_two_width,
            level_two_height,
            hit_list: Vec::new(),
        };
        assert(paths_view(sim.path_list@) =~= Seq::<Seq<Viewport>>::empty());
        sim.parse_tracing_to_path_list(dump_lines, dump_complete, objects);
        assert(paths_view(sim.path_list@) =~= trace_paths(
            dump_lines@,
            dump_complete,
            objects@,
            fov_width,
            fov_height,
        ));
        sim.parse_user_data(user_lines);
        assert(sim.user_fov_list@ =~= user_viewports(user_lines@));
        sim
    }
}

/// Every candidate viewport's coverage of `user` is defined.
pub open spec fn all_covered(paths: Seq<Viewport>, user: Viewport) -> bool {
    forall|i: int| 0 <= i < paths.len() ==> (#[trigger] cover_ratio(paths[i], user)) is Some
}

/// The coverage of `user` by each of `paths`.
pub open spec fn path_ratios(paths: Seq<Viewport>, user: Viewport) -> Seq<Ratio> {
    Seq::new(paths.len(), |i: int| cover_ratio(paths[i], user).unwrap())
}

/// The best of `rs`, starting from minus infinity, and the position of the
/// first value that reaches it (`None` where no value exceeds minus
/// infinity).
pub open spec fn best_of(rs: Seq<Ratio>) -> (Ratio, Option<usize>)
    decreases rs.len(),
{
    if rs.len() == 0 {
        (Ratio { num: -1i64, den: 0u64 }, None)
    } else {
        let prev = best_of(rs.drop_last());
        if prev.0.less_than(rs.last()) {
            (rs.last(), Some((rs.len() - 1) as usize))
        } else {
            prev
        }
    }
}

/// The best coverage of `user` among `paths`, and the first path that
/// reaches it.
pub open spec fn best_path(paths: Seq<Viewport>, user: Viewport) -> (Ratio, Option<usize>) {
    best_of(path_ratios(paths, user))
}

/// The hit of a frame served from the full frame.
pub open spec fn level_three_outcome(index: usize, path: usize) -> (Hit, CacheLevel) {
    (
        Hit {
            index,
            ratio: Ratio { num: 1i64, den: 1u64 },
            path,
            cache_level: CacheLevel::LevelThree,
            width: PANORAMA_WIDTH as usize,
            height: 2160,
        },
        CacheLevel::LevelThree,
    )
}

/// Serving a frame from the second level: the enlarged viewport is used
/// where its coverage reaches the threshold, else the full frame; `None`
/// where a computation fails, or where the enlarged viewport covers less than
/// the first-level one.
pub open spec fn level_two_outcome(
    sim: Simulator,
    fov: Viewport,
    user: Viewport,
    index: usize,
    path: usize,
) -> Option<(Hit, CacheLevel)> {
    match (cover_ratio(fov, user), resized(fov, sim.level_two_width, sim.level_two_height)) {
        (Some(level_one_ratio), Some(level_two)) => match cover_ratio(level_two, user) {
            Some(level_two_ratio) => if level_two_ratio.at_least(sim.threshold) {
                Some(
                    (
                        Hit {
                            index,
                            ratio: level_two_ratio,
                            path,
                            cache_level: CacheLevel::LevelTwo,
                            width: sim.level_two_width,
                            height: sim.level_two_height,
                        },
                        CacheLevel::LevelTwo,
                    ),
                )
            } else if level_two_ratio.less_than(level_one_ratio) {
                None
            } else {
                Some(level_three_outcome(index, path))
            },
            None => None,
        },
        _ => None,
    }
}

/// Serving a frame from the first level: the viewport `fov` is used where
/// its coverage reaches the threshold, else the second level is tried.
pub open spec fn level_one_outcome(
    sim: Simulator,
    fov: Viewport,
    user: Viewport,
    index: usize,
    path: usize,
    width: usize,
    height: usize,
) -> Option<(Hit, CacheLevel)> {
    match cover_ratio(fov, user) {
        Some(ratio) => if ratio.at_least(sim.threshold) {
            Some(
                (
                    Hit { index, ratio, path, cache_level: CacheLevel::LevelOne, width, height },
                    CacheLevel::LevelOne,
                ),
            )
        } else {
            level_two_outcome(sim, fov, user, index, path)
        },
        None => None,
    }
}

/// The state carried from frame to frame: the path chosen at the start of
/// the segment, the last hit and the cache level it was served from.
pub type SimState = (Option<usize>, Hit, CacheLevel);

pub open spec fn initial_state() -> SimState {
    (
        None,
        Hit {
            index: 0,
            ratio: Ratio { num: 0i64, den: 1u64 },
            path: 0,
            cache_level: CacheLevel::LevelOne,
            width: 0,
            height: 0,
        },
        CacheLevel::LevelOne,
    )
}

/// Frame `k`: the best path for the user's viewport is found; at the start
/// of a segment that path is chosen and tried from the first level; inside a
/// segment the level of the previous frame is kept while the best path stays
/// the chosen one (from the first level a change of path goes to the full
/// frame under the new path, from the others under the chosen one).
/// `None` where the frame cannot be simulated.
#[verifier::opaque]
pub open spec fn simulate_step(sim: Simulator, st: SimState, k: int) -> Option<SimState> {
    if k >= sim.path_list@.len() {
        None
    } else {
        let user = sim.user_fov_list@[k];
        let paths = sim.path_list@[k]@;
        if !all_covered(paths, user) || sim.segment == 0 {
            None
        } else {
            let best = best_path(paths, user).1;
            let idx = k as usize;
            if k % (sim.segment as int) == 0 {
                match best {
                    None => None,
                    Some(p) => match level_one_outcome(
                        sim,
                        paths[p as int],
                        user,
                        idx,
                        p,
                        sim.fov_width,
                        sim.fov_height,
                    ) {
                        Some(o) => Some((best, o.0, o.1)),
                        None => None,
                    },
                }
            } else {
                let outcome = match st.2 {
                    CacheLevel::LevelOne => match best {
                        None => None,
                        Some(p) => if st.0 == best {
                            level_one_outcome(
                                sim,
                                paths[p as int],
                                user,
                                idx,
                                p,
                                sim.fov_width,
                                sim.fov_height,
                            )
                        } else {
                            Some(level_three_outcome(idx, p))
                        },
                    },
                    CacheLevel::LevelTwo => if st.0 == best {
                        match best {
                            None => None,
                            Some(p) => level_two_outcome(sim, paths[p as int], user, idx, p),
                        }
                    } else {
                        match st.0 {
                            None => None,
                            Some(c) => Some(level_three_outcome(idx, c)),
                        }
                    },
                    CacheLevel::LevelThree => match st.0 {
                        None => None,
                        Some(c) => Some(level_three_outcome(idx, c)),
                    },
                };
                match outcome {
                    Some(o) => Some((st.0, o.0, o.1)),
                    None => None,
                }
            }
        }
    }
}

/// The first `n` frames simulated in order: the state after them and their
/// hits; `None` where one of them cannot be simulated.
pub open spec fn simulate_run(sim: Simulator, n: nat) -> Option<(SimState, Seq<Hit>)>
    decreases n,
{
    if n == 0 {
        Some((initial_state(), Seq::empty()))
    } else {
        match simulate_run(sim, (n - 1) as nat) {
            None => None,
            Some(prev) => match simulate_step(sim, prev.0, n - 1) {
                None => None,
                Some(st) => Some((st, prev.1.push(st.1))),
            },
        }
    }
}

/// The best value, where there is one, is at a position of the sequence.
pub proof fn lemma_best_of_in_range(rs: Seq<Ratio>)
    ensures
        best_of(rs).1 matches Some(p) ==> p < rs.len(),
    decreases rs.len(),
{
    if rs.len() > 0 {
        lemma_best_of_in_range(rs.drop_last());
    }
}

/// The best path, where there is one, is a position among the paths.
pub proof fn lemma_best_path_in_range(paths: Seq<Viewport>, user: Viewport)
    ensures
        best_path(paths, user).1 matches Some(p) ==> p < paths.len(),
{
    lemma_best_of_in_range(path_ratios(paths, user));
}

/// The best of a sequence is a best one: it is the value at the position it
/// names, and no value of the sequence is strictly greater.
pub proof fn lemma_best_of_is_maximal(rs: Seq<Ratio>)
    requires
        rs.len() <= usize::MAX,
    ensures
        best_of(rs).1 matches Some(p) ==> best_of(rs).0 == rs[p as int],
        forall|i: int| 0 <= i < rs.len() ==> !best_of(rs).0.less_than(#[trigger] rs[i]),
    decreases rs.len(),
{
    if rs.len() > 0 {
        let prefix = rs.drop_last();
        lemma_best_of_is_maximal(prefix);
        lemma_best_of_in_range(prefix);
        let m = best_of(prefix).0;
        let r = rs.last();
        assert forall|i: int| 0 <= i < rs.len() implies !best_of(rs).0.less_than(#[trigger] rs[i]) by {
            if i < rs.len() - 1 {
                assert(prefix[i] == rs[i]);
                if m.less_than(r) {
                    crate::ratio::lemma_less_than_strict_order(m, r, rs[i]);
                }
            } else {
                crate::ratio::lemma_less_than_strict_order(r, r, r);
            }
        }
        if let Some(p) = best_of(prefix).1 {
            assert(prefix[p as int] == rs[p as int]);
        }
    }
}

/// The path the simulator picks for a frame covers the user's viewport at
/// least as well as any other path: its coverage is that of the path it
/// names, and no path's coverage is strictly greater.
pub proof fn lemma_best_path_is_maximal(paths: Seq<Viewport>, user: Viewport)
    requires
        all_covered(paths, user),
        paths.len() <= usize::MAX,
    ensures
        best_path(paths, user).1 matches Some(p) ==> best_path(paths, user).0 == cover_ratio(
            paths[p as int],
            user,
        ).unwrap(),
        forall|i: int|
            0 <= i < paths.len() ==> !best_path(paths, user).0.less_than(
                #[trigger] cover_ratio(paths[i], user).unwrap(),
            ),
{
    let rs = path_ratios(paths, user);
    lemma_best_of_is_maximal(rs);
    lemma_best_of_in_range(rs);
    assert forall|i: int| 0 <= i < paths.len() implies !best_path(paths, user).0.less_than(
        #[trigger] cover_ratio(paths[i], user).unwrap(),
    ) by {
        assert(rs[i] == cover_ratio(paths[i], user).unwrap());
    }
}

proof fn lemma_run_fails_onward(sim: Simulator, a: nat, b: nat)
    requires
        a <= b,
        simulate_run(sim, a) is None,
    ensures
        simulate_run(sim, b) is None,
    decreases b - a,
{
    if a < b {
        assert(simulate_run(sim, (a + 1) as nat) is None);
        lemma_run_fails_onward(sim, (a + 1) as nat, b);
    }
}

fn same_path(a: Option<usize>, b: Option<usize>) -> (r: bool)
    ensures
        r == (a == b),
{
    match (a, b) {
        (Some(x), Some(y)) => x == y,
        (None, None) => true,
        _ => false,
    }
}

/// The best path for `user_fov` among `paths`; `None` where a coverage
/// cannot be computed.
fn find_best_path(paths: &Vec<Viewport>, user_fov: &Viewport) -> (r: Option<(Ratio, Option<usize>)>)
    ensures
        r is Some <==> all_covered(paths@, *user_fov),
        r matches Some(b) ==> b == best_path(paths@, *user_fov),
{
    let mut max_ratio = Ratio::neg_infinity();
    let mut max_ratio_path: Option<usize> = None;
    let mut i: usize = 0;
    while i < paths.len()
        invariant
            i <= paths.len(),
            forall|j: int| 0 <= j < i ==> (#[trigger] cover_ratio(paths@[j], *user_fov)) is Some,
            best_of(path_ratios(paths@, *user_fov).take(i as int)) == (max_ratio, max_ratio_path),
        decreases paths.len() - i,
    {
        let current_ratio = match paths[i].checked_cover_ratio(user_fov) {
            Some(r) => r,
            None => {
                return None;
            },
        };
        proof {
            let rs = path_ratios(paths@, *user_fov);
            assert(rs.take(i + 1).drop_last() == rs.take(i as int));
            assert(rs.take(i + 1).last() == current_ratio);
        }
        if max_ratio.lt(&current_ratio) {
            max_ratio = current_ratio;
            max_ratio_path = Some(i);
        }
        i = i + 1;
    }
    assert(path_ratios(paths@, *user_fov).take(paths.len() as int) == path_ratios(paths@, *user_fov));
    Some((max_ratio, max_ratio_path))
}

impl Simulator {
    /// Serves a frame from the first level where `fov` covers enough of
    /// `user_fov`, else tries the second level; `None` exactly where
    /// `compare_from_level_one` does not accept its inputs.
    fn try_compare_from_level_one(
        &self,
        fov: &Viewport,
        user_fov: &Viewport,
        index: usize,
        path: usize,
        width: usize,
        height: usize,
    ) -> (r: Option<(Hit, CacheLevel)>)
        ensures
            r == level_one_outcome(*self, *fov, *user_fov, index, path, width, height),
    {
        let ratio = match fov.checked_cover_ratio(user_fov) {
            Some(r) => r,
            None => {
                return None;
            },
        };
        if ratio.ge(&self.threshold) {
            let hit = Hit { index, ratio, cache_level: CacheLevel::LevelOne, path, width, height };
            Some((hit, CacheLevel::LevelOne))
        } else {
            self.try_compare_from_level_two(fov, user_fov, index, path)
        }
    }

    /// Serves a frame from the enlarged second-level viewport where it covers
    /// enough of `user_fov`, else from the full frame; `None` exactly where
    /// `compare_from_level_two` does not accept its inputs (a coverage or the
    /// enlargement cannot be computed, or the enlarged viewport covers less
    /// than `fov` does).
    fn try_compare_from_level_two(&self, fov: &Viewport, user_fov: &Viewport, index: usize, path: usize) -> (r:
        Option<(Hit, CacheLevel)>)
        ensures
            r == level_two_outcome(*self, *fov, *user_fov, index, path),
    {
        let level_one_ratio = match fov.checked_cover_ratio(user_fov) {
            Some(r) => r,
            None => {
                return None;
            },
        };
        let level_two_viewport = match Viewport::checked_create_new_with_size(
            fov,
            self.level_two_width,
            self.level_two_height,
        ) {
            Some(v) => v,
            None => {
                return None;
            },
        };
        let level_two_ratio = match level_two_viewport.checked_cover_ratio(user_fov) {
            Some(r) => r,
            None => {
                return None;
            },
        };
        if level_two_ratio.ge(&self.threshold) {
            let hit = Hit {
                index,
                ratio: level_two_ratio,
                cache_level: CacheLevel::LevelTwo,
                path,
                width: self.level_two_width,
                height: self.level_two_height,
            };
            Some((hit, CacheLevel::LevelTwo))
        } else if level_two_ratio.lt(&level_one_ratio) {
            None
        } else {
            Some(self.compare_from_level_three(index, path))
        }
    }

    /// Serves a frame from the first level where `fov` covers at least the
    /// threshold of `user_fov`, else from the second level or the full frame.
    pub fn compare_from_level_one(
        &self,
        fov: &Viewport,
        user_fov: &Viewport,
        index: usize,
        path: usize,
        width: usize,
        height: usize,
    ) -> (r: (Hit, CacheLevel))
        requires
            level_one_outcome(*self, *fov, *user_fov, index, path, width, height) is Some,
        ensures
            r == level_one_outcome(*self, *fov, *user_fov, index, path, width, height).unwrap(),
    {
        self.try_compare_from_level_one(fov, user_fov, index, path, width, height).unwrap()
    }

    /// Serves a frame from the enlarged second-level viewport where it covers
    /// at least the threshold of `user_fov`, else from the full frame.  The
    /// coverages and the enlargement must be computable, and where the
    /// enlarged viewport falls short of the threshold it must cover no less
    /// than `fov` does.
    pub fn compare_from_level_two(
        &self,
        fov: &Viewport,
        user_fov: &Viewport,
        index: usize,
        path: usize,
    ) -> (r: (Hit, CacheLevel))
        requires
            level_two_outcome(*self, *fov, *user_fov, index, path) is Some,
        ensures
            r == level_two_outcome(*self, *fov, *user_fov, index, path).unwrap(),
    {
        self.try_compare_from_level_two(fov, user_fov, index, path).unwrap()
    }

    /// Serves a frame from the full frame.
    pub fn compare_from_level_three(&self, index: usize, path: usize) -> (r: (Hit, CacheLevel))
        ensures
            r == level_three_outcome(index, path),
    {
        let hit = Hit {
            index,
            ratio: Ratio::from_int(1),
            cache_level: CacheLevel::LevelThree,
            path,
            width: 3840,
            height: 2160,
        };
        (hit, CacheLevel::LevelThree)
    }

    /// Simulates frame `k` from the state left by the frames before it.
    fn simulate_frame(
        &self,
        current_path: Option<usize>,
        hit: Hit,
        level: CacheLevel,
        k: usize,
    ) -> (r: Option<(Option<usize>, Hit, CacheLevel)>)
        requires
            k < self.user_fov_list@.len(),
        ensures
            r == simulate_step(*self, (current_path, hit, level), k as int),
    {
        reveal(simulate_step);
        if k >= self.path_list.len() || self.segment == 0 {
            return None;
        }
        let user_fov = &self.user_fov_list[k];
        let paths = &self.path_list[k];
        let best = match find_best_path(paths, user_fov) {
            Some(b) => b,
            None => {
                return None;
            },
        };
        let max_ratio_path = best.1;
        proof {
            lemma_best_path_in_range(paths@, *user_fov);
        }
        let width = self.fov_width;
        let height = self.fov_height;
        let segment_start = k % self.segment == 0;
        let outcome: Option<(Hit, CacheLevel)> = if segment_start {
            match max_ratio_path {
                None => None,
                Some(p) => self.try_compare_from_level_one(&paths[p], user_fov, k, p, width, height),
            }
        } else {
            match level {
                CacheLevel::LevelOne => match max_ratio_path {
                    None => None,
                    Some(p) => if same_path(current_path, max_ratio_path) {
                        self.try_compare_from_level_one(&paths[p], user_fov, k, p, width, height)
                    } else {
                        Some(self.compare_from_level_three(k, p))
                    },
                },
                CacheLevel::LevelTwo => if same_path(current_path, max_ratio_path) {
                    match max_ratio_path {
                        None => None,
                        Some(p) => self.try_compare_from_level_two(&paths[p], user_fov, k, p),
                    }
                } else {
                    match current_path {
                        None => None,
                        Some(c) => Some(self.compare_from_level_three(k, c)),
                    }
                },
                CacheLevel::LevelThree => match current_path {
                    None => None,
                    Some(c) => Some(self.compare_from_level_three(k, c)),
                },
            }
        };
        match outcome {
            None => None,
            Some(o) => {
                let next_path = if segment_start {
                    max_ratio_path
                } else {
                    current_path
                };
                Some((next_path, o.0, o.1))
            },
        }
    }

    /// The hits of all the user's frames; `None` where a frame cannot be
    /// simulated.
    fn simulate_hits(&self) -> (r: Option<Vec<Hit>>)
        ensures
            r is Some <==> simulate_run(*self, self.user_fov_list@.len()) is Some,
            r matches Some(h) ==> h@ == simulate_run(*self, self.user_fov_list@.len()).unwrap().1,
    {
        let n = self.user_fov_list.len();
        let mut current_path: Option<usize> = None;
        let mut hit = Hit {
            index: 0,
            ratio: Ratio::from_int(0),
            cache_level: CacheLevel::LevelOne,
            path: 0,
            width: 0,
            height: 0,
        };
        let mut level = CacheLevel::LevelOne;
        let mut hits: Vec<Hit> = Vec::new();
        let mut k: usize = 0;
        while k < n
            invariant
                k <= n,
                n == self.user_fov_list@.len(),
                simulate_run(*self, k as nat) == Some(((current_path, hit, level), hits@)),
            decreases n - k,
        {
            let next = match self.simulate_frame(current_path, hit, level, k) {
                Some(st) => st,
                None => {
                    proof {
                        lemma_run_fails_onward(*self, (k + 1) as nat, n as nat);
                    }
                    return None;
                },
            };
            current_path = next.0;
            hit = next.1;
            level = next.2;
            hits.push(next.1);
            k = k + 1;
        }
        Some(hits)
    }

    /// Simulates every frame the user watched and records its hit, on inputs
    /// where every frame can be simulated and no hit was recorded yet;
    /// otherwise returns false and changes nothing.
    pub fn checked_hierarchical_simulate(&mut self) -> (ok: bool)
        ensures
            ok == (old(self).hit_list@.len() == 0 && simulate_run(
                *old(self),
                old(self).user_fov_list@.len(),
            ) is Some),
            ok ==> final(self).hit_list@ == simulate_run(
                *old(self),
                old(self).user_fov_list@.len(),
            ).unwrap().1,
            ok ==> final(self).hit_list@.len() == old(self).user_fov_list@.len(),
            old(self).hit_list@.len() > 0 ==> !ok,
            simulate_run(*old(self), old(self).user_fov_list@.len()) is Some ==> (ok <==> old(
                self,
            ).hit_list@.len() + old(self).user_fov_list@.len() == old(self).user_fov_list@.len()),
            !ok ==> final(self).hit_list@ == old(self).hit_list@,
            same_settings(*final(self), *old(self)),
            final(self).path_list@ == old(self).path_list@,
            final(self).user_fov_list@ == old(self).user_fov_list@,
    {
        let hits = match self.simulate_hits() {
            Some(h) => h,
            None => {
                return false;
            },
        };
        if self.hit_list.len() != 0 {
            return false;
        }
        proof {
            lemma_simulation_hits(*self, self.user_fov_list@.len());
        }
        self.hit_list = hits;
        true
    }

    /// Simulates every frame the user watched and records its hit in
    /// `hit_list`.  The hit list must be empty beforehand: afterwards it must
    /// hold exactly one hit per frame watched, so a second run is not
    /// accepted (`checked_hierarchical_simulate` refuses it).
    pub fn hierarchical_simulate(&mut self)
        requires
            old(self).hit_list@.len() == 0,
            simulate_run(*old(self), old(self).user_fov_list@.len()) is Some,
        ensures
            final(self).hit_list@ == simulate_run(
                *old(self),
                old(self).user_fov_list@.len(),
            ).unwrap().1,
            final(self).hit_list@.len() == old(self).user_fov_list@.len(),
            same_settings(*final(self), *old(self)),
            final(self).path_list@ == old(self).path_list@,
            final(self).user_fov_list@ == old(self).user_fov_list@,
    {
        let ok = self.checked_hierarchical_simulate();
        assert(ok);
    }
}

/// What a hit records agrees with the level it was served from: from the
/// first or second level, a coverage of at least the threshold (and at most
/// 1) with that level's viewport size; from the full frame, coverage 1 and
/// the panorama's size.
pub open spec fn hit_consistent(sim: Simulator, h: Hit) -> bool {
    match h.cache_level {
        CacheLevel::LevelOne => {
            &&& h.ratio.at_least(sim.threshold)
            &&& h.ratio.num <= h.ratio.den
            &&& h.width == sim.fov_width
            &&& h.height == sim.fov_height
        },
        CacheLevel::LevelTwo => {
            &&& h.ratio.at_least(sim.threshold)
            &&& h.ratio.num <= h.ratio.den
            &&& h.width == sim.level_two_width
            &&& h.height == sim.level_two_height
        },
        CacheLevel::LevelThree => {
            &&& h.ratio == Ratio { num: 1i64, den: 1u64 }
            &&& h.width == 3840
            &&& h.height == 2160
        },
    }
}

/// What holds of the first `n` frames simulated.
pub open spec fn run_invariant(sim: Simulator, n: nat, st: SimState, hits: Seq<Hit>) -> bool {
    &&& hits.len() == n
    &&& n > 0 ==> st.1 == hits[n - 1] && st.2 == hits[n - 1].cache_level
    &&& n == 0 ==> st.2 == CacheLevel::LevelOne
    &&& forall|k: int| 0 <= k < n ==> (#[trigger] hits[k]).index == k
    &&& forall|k: int| 0 <= k < n ==> hit_consistent(sim, #[trigger] hits[k])
    &&& forall|k: int|
        0 < k < n && k % (sim.segment as int) != 0 ==> level_rank(#[trigger] hits[k].cache_level)
            >= level_rank(hits[k - 1].cache_level)
    &&& forall|k: int|
        0 <= k < n && k % (sim.segment as int) == 0 ==> best_path(
            sim.path_list@[k]@,
            sim.user_fov_list@[k],
        ).1 is Some && (#[trigger] hits[k]).path == best_path(
            sim.path_list@[k]@,
            sim.user_fov_list@[k],
        ).1.unwrap()
}

proof fn lemma_level_one_outcome(
    sim: Simulator,
    fov: Viewport,
    user: Viewport,
    index: usize,
    path: usize,
)
    ensures
        level_one_outcome(sim, fov, user, index, path, sim.fov_width, sim.fov_height) matches Some(o)
            ==> {
            &&& o.1 == o.0.cache_level
            &&& o.0.index == index
            &&& o.0.path == path
            &&& hit_consistent(sim, o.0)
        },
        level_two_outcome(sim, fov, user, index, path) matches Some(o) ==> {
            &&& o.1 == o.0.cache_level
            &&& o.0.index == index
            &&& o.0.path == path
            &&& hit_consistent(sim, o.0)
            &&& o.1 != CacheLevel::LevelOne
        },
{
}

/// What one simulated frame `k` gives, from state `st` to state `next`.
pub open spec fn step_facts(sim: Simulator, st: SimState, k: int, next: SimState) -> bool {
    let best = best_path(sim.path_list@[k]@, sim.user_fov_list@[k]).1;
    &&& next.1.index == k
    &&& hit_consistent(sim, next.1)
    &&& next.2 == next.1.cache_level
    &&& k % (sim.segment as int) != 0 ==> level_rank(next.2) >= level_rank(st.2)
    &&& k % (sim.segment as int) == 0 ==> best is Some && next.1.path == best.unwrap()
}

proof fn lemma_step_facts(sim: Simulator, st: SimState, k: int)
    requires
        simulate_step(sim, st, k) is Some,
        0 <= k,
    ensures
        step_facts(sim, st, k, simulate_step(sim, st, k).unwrap()),
{
    reveal(simulate_step);
    let paths = sim.path_list@[k]@;
    let user = sim.user_fov_list@[k];
    let best = best_path(paths, user).1;
    assert(sim.path_list@.len() == sim.path_list.len());
    assert(k as usize == k);
    let idx = k as usize;
    let next = simulate_step(sim, st, k).unwrap();
    if let Some(p) = best {
        lemma_level_one_outcome(sim, paths[p as int], user, idx, p);
    }
    if k % (sim.segment as int) == 0 {
        assert(best is Some);
    } else {
        match st.2 {
            CacheLevel::LevelOne => {
                assert(best is Some);
            },
            CacheLevel::LevelTwo => {
                if st.0 == best {
                    assert(best is Some);
                    assert(next.2 != CacheLevel::LevelOne);
                } else {
                    assert(next.2 == CacheLevel::LevelThree);
                }
            },
            CacheLevel::LevelThree => {
                assert(next.2 == CacheLevel::LevelThree);
            },
        }
    }
}

proof fn lemma_invariant_extends(sim: Simulator, m: nat, st: SimState, hits: Seq<Hit>, next: SimState)
    requires
        run_invariant(sim, m, st, hits),
        step_facts(sim, st, m as int, next),
    ensures
        run_invariant(sim, m + 1, next, hits.push(next.1)),
{
    let all = hits.push(next.1);
    assert(forall|j: int| 0 <= j < m ==> all[j] == hits[j]);
    assert(all[m as int] == next.1);
}

proof fn lemma_run_invariant(sim: Simulator, n: nat)
    ensures
        simulate_run(sim, n) matches Some(r) ==> run_invariant(sim, n, r.0, r.1),
    decreases n,
{
    if n > 0 {
        let m = (n - 1) as nat;
        lemma_run_invariant(sim, m);
        if let Some(prev) = simulate_run(sim, m) {
            if let Some(st) = simulate_step(sim, prev.0, m as int) {
                lemma_step_facts(sim, prev.0, m as int);
                lemma_invariant_extends(sim, m, prev.0, prev.1, st);
            }
        }
    }
}

/// Simulating the first `n` frames gives one hit per frame, the `k`-th for
/// frame `k`, and each hit agrees with the level it was served from.
pub proof fn lemma_simulation_hits(sim: Simulator, n: nat)
    requires
        simulate_run(sim, n) is Some,
    ensures
        simulate_run(sim, n).unwrap().1.len() == n,
        forall|k: int|
            0 <= k < n ==> (#[trigger] simulate_run(sim, n).unwrap().1[k]).index == k && hit_consistent(
                sim,
                simulate_run(sim, n).unwrap().1[k],
            ),
{
    lemma_run_invariant(sim, n);
}

/// Within a segment, the cache level a frame is served from never drops
/// below that of the frame before: from the first level a frame may go on
/// to the second or the full frame, from the second only to the full frame,
/// and the full frame is kept to the end of the segment.
pub proof fn lemma_level_never_drops_within_segment(sim: Simulator, n: nat, k: int)
    requires
        simulate_run(sim, n) is Some,
        0 < k < n,
        k % (sim.segment as int) != 0,
    ensures
        level_rank(simulate_run(sim, n).unwrap().1[k].cache_level) >= level_rank(
            simulate_run(sim, n).unwrap().1[k - 1].cache_level,
        ),
{
    lemma_run_invariant(sim, n);
    let hits = simulate_run(sim, n).unwrap().1;
    assert(level_rank(hits[k].cache_level) >= level_rank(hits[k - 1].cache_level));
}

/// At the start of each segment, the frame is served under the path whose
/// viewport best covers what the user saw.
pub proof fn lemma_segment_start_uses_best_path(sim: Simulator, n: nat, k: int)
    requires
        simulate_run(sim, n) is Some,
        0 <= k < n,
        k % (sim.segment as int) == 0,
    ensures
        best_path(sim.path_list@[k]@, sim.user_fov_list@[k]).1 is Some,
        simulate_run(sim, n).unwrap().1[k].path == best_path(
            sim.path_list@[k]@,
            sim.user_fov_list@[k],
        ).1.unwrap(),
{
    lemma_run_invariant(sim, n);
    let hits = simulate_run(sim, n).unwrap().1;
    assert(hits[k].path == best_path(sim.path_list@[k]@, sim.user_fov_list@[k]).1.unwrap());
}

/// A best path exists exactly when some value exceeds minus infinity (is
/// neither minus infinity nor not a number): the search starts from minus
/// infinity, so any such value is taken.
pub proof fn lemma_best_of_exists(rs: Seq<Ratio>)
    ensures
        best_of(rs).1 is Some <==> exists|i: int|
            0 <= i < rs.len() && (Ratio { num: -1i64, den: 0u64 }).less_than(#[trigger] rs[i]),
        best_of(rs).1 is None ==> best_of(rs).0 == (Ratio { num: -1i64, den: 0u64 }),
        best_of(rs).1 is Some ==> (Ratio { num: -1i64, den: 0u64 }).less_than(best_of(rs).0),
    decreases rs.len(),
{
    let ninf = Ratio { num: -1i64, den: 0u64 };
    if rs.len() > 0 {
        let prefix = rs.drop_last();
        lemma_best_of_exists(prefix);
        let m = best_of(prefix).0;
        let r = rs.last();
        if best_of(rs).1 is Some {
            if best_of(prefix).1 is Some && !m.less_than(r) {
                let i = choose|i: int| 0 <= i < prefix.len() && ninf.less_than(#[trigger] prefix[i]);
                assert(rs[i] == prefix[i]);
            } else {
                assert(rs[rs.len() - 1] == r);
            }
        } else {
            assert forall|i: int| 0 <= i < rs.len() implies !ninf.less_than(#[trigger] rs[i]) by {
                if i < rs.len() - 1 {
                    assert(rs[i] == prefix[i]);
                }
            }
        }
    }
}

/// A frame with at least one path whose coverage of the user's viewport is
/// a finite number always has a best path.
pub proof fn lemma_best_path_exists(paths: Seq<Viewport>, user: Viewport, i: int)
    requires
        all_covered(paths, user),
        0 <= i < paths.len(),
        cover_ratio(paths[i], user).unwrap().den > 0,
    ensures
        best_path(paths, user).1 is Some,
{
    let rs = path_ratios(paths, user);
    assert(rs[i] == cover_ratio(paths[i], user).unwrap());
    assert((Ratio { num: -1i64, den: 0u64 }).less_than(rs[i]));
    lemma_best_of_exists(rs);
}

/// Serving from the first level: the hit is a first-level one exactly when
/// the coverage of the user's viewport by `fov` reaches the threshold, and
/// then records that coverage, the frame, the path and the given size;
/// otherwise the second level decides.
pub proof fn lemma_level_one_decision(
    sim: Simulator,
    fov: Viewport,
    user: Viewport,
    index: usize,
    path: usize,
    width: usize,
    height: usize,
)
    requires
        level_one_outcome(sim, fov, user, index, path, width, height) is Some,
    ensures
        cover_ratio(fov, user) is Some,
        ({
            let o = level_one_outcome(sim, fov, user, index, path, width, height).unwrap();
            let r = cover_ratio(fov, user).unwrap();
            &&& (o.1 == CacheLevel::LevelOne) <==> r.at_least(sim.threshold)
            &&& o.1 == CacheLevel::LevelOne ==> o.0 == (Hit {
                index,
                ratio: r,
                path,
                cache_level: CacheLevel::LevelOne,
                width,
                height,
            })
            &&& o.1 != CacheLevel::LevelOne ==> level_two_outcome(sim, fov, user, index, path) == Some(
                o,
            )
        }),
{
    lemma_level_one_outcome(sim, fov, user, index, path);
}

/// Serving from the second level: the enlarged viewport is `fov` resized
/// about its centre to the second-level size; the hit is a second-level one
/// exactly when that viewport's coverage of the user's viewport reaches the
/// threshold, and then records that coverage and the second-level size;
/// otherwise the frame is served from the full frame, and the enlarged
/// viewport covers no less than `fov`.
pub proof fn lemma_level_two_decision(
    sim: Simulator,
    fov: Viewport,
    user: Viewport,
    index: usize,
    path: usize,
)
    requires
        level_two_outcome(sim, fov, user, index, path) is Some,
    ensures
        cover_ratio(fov, user) is Some,
        resized(fov, sim.level_two_width, sim.level_two_height) is Some,
        cover_ratio(resized(fov, sim.level_two_width, sim.level_two_height).unwrap(), user) is Some,
        ({
            let o = level_two_outcome(sim, fov, user, index, path).unwrap();
            let r = cover_ratio(
                resized(fov, sim.level_two_width, sim.level_two_height).unwrap(),
                user,
            ).unwrap();
            &&& (o.1 == CacheLevel::LevelTwo) <==> r.at_least(sim.threshold)
            &&& o.1 == CacheLevel::LevelTwo ==> o.0 == (Hit {
                index,
                ratio: r,
                path,
                cache_level: CacheLevel::LevelTwo,
                width: sim.level_two_width,
                height: sim.level_two_height,
            })
            &&& o.1 != CacheLevel::LevelTwo ==> {
                &&& o.1 == CacheLevel::LevelThree
                &&& o.0 == (Hit {
                    index,
                    ratio: Ratio { num: 1i64, den: 1u64 },
                    path,
                    cache_level: CacheLevel::LevelThree,
                    width: 3840,
                    height: 2160,
                })
                &&& !r.less_than(cover_ratio(fov, user).unwrap())
            }
        }),
{
}

/// The frames read from a trace dump end with the frame being read at the
/// end: it carries the last record's frame id, and its last viewport is the
/// last record's rectangle with confidence 100.
pub proof fn lemma_last_frame_holds_last_record(recs: Seq<TraceRecord>)
    requires
        recs.len() > 0,
    ensures
        frames_of(recs).last().0 == recs.last().frame_id,
        frames_of(recs).last().1.len() > 0,
        frames_of(recs).last().1.last() == (Viewport {
            conf: 100,
            x: recs.last().x,
            y: recs.last().y,
            width: recs.last().width,
            height: recs.last().height,
        }),
{
}

/// Every viewport of every frame read from a trace dump is the rectangle
/// of one of its records, with confidence 100.
pub proof fn lemma_frames_hold_record_viewports(recs: Seq<TraceRecord>)
    ensures
        forall|i: int, j: int|
            0 <= i < frames_of(recs).len() && 0 <= j < frames_of(recs)[i].1.len() ==> exists|k: int|
                0 <= k < recs.len() && #[trigger] frames_of(recs)[i].1[j] == (Viewport {
                    conf: 100,
                    x: recs[k].x,
                    y: recs[k].y,
                    width: recs[k].width,
                    height: recs[k].height,
                }),
{
    lemma_read_traces_from_records(recs);
    let st = read_traces(recs);
    assert forall|i: int, j: int|
        0 <= i < frames_of(recs).len() && 0 <= j < frames_of(recs)[i].1.len() implies exists|k: int|
        0 <= k < recs.len() && #[trigger] frames_of(recs)[i].1[j] == (Viewport {
            conf: 100,
            x: recs[k].x,
            y: recs[k].y,
            width: recs[k].width,
            height: recs[k].height,
        }) by {
        if i < st.0.len() {
            assert(frames_of(recs)[i] == st.0[i]);
            assert(record_viewport_of(recs, st.0[i].1[j]));
        } else {
            assert(frames_of(recs)[i] == (st.2, st.1));
            assert(record_viewport_of(recs, st.1[j]));
        }
    }
}

/// `v` is the rectangle of one of the records, with confidence 100.
spec fn record_viewport_of(recs: Seq<TraceRecord>, v: Viewport) -> bool {
    exists|k: int|
        0 <= k < recs.len() && v == (Viewport {
            conf: 100,
            x: recs[k].x,
            y: recs[k].y,
            width: recs[k].width,
            height: recs[k].height,
        })
}

proof fn lemma_record_viewport_extends(recs: Seq<TraceRecord>, v: Viewport)
    requires
        recs.len() > 0,
        record_viewport_of(recs.drop_last(), v),
    ensures
        record_viewport_of(recs, v),
{
    let k = choose|k: int|
        0 <= k < recs.drop_last().len() && v == (Viewport {
            conf: 100,
            x: recs.drop_last()[k].x,
            y: recs.drop_last()[k].y,
            width: recs.drop_last()[k].width,
            height: recs.drop_last()[k].height,
        });
    assert(recs.drop_last()[k] == recs[k]);
}

proof fn lemma_read_traces_from_records(recs: Seq<TraceRecord>)
    ensures
        forall|i: int, j: int|
            0 <= i < read_traces(recs).0.len() && 0 <= j < read_traces(recs).0[i].1.len()
                ==> record_viewport_of(recs, #[trigger] read_traces(recs).0[i].1[j]),
        forall|j: int|
            0 <= j < read_traces(recs).1.len() ==> record_viewport_of(
                recs,
                #[trigger] read_traces(recs).1[j],
            ),
    decreases recs.len(),
{
    if recs.len() > 0 {
        let prefix = recs.drop_last();
        lemma_read_traces_from_records(prefix);
        let prev = read_traces(prefix);
        let r = recs.last();
        let k = recs.len() - 1;
        assert(recs[k] == r);
        assert(record_viewport_of(recs, trace_viewport(r)));
        assert forall|i: int, j: int|
            0 <= i < prev.0.len() && 0 <= j < prev.0[i].1.len() implies record_viewport_of(
            recs,
            #[trigger] prev.0[i].1[j],
        ) by {
            lemma_record_viewport_extends(recs, prev.0[i].1[j]);
        }
        assert forall|j: int| 0 <= j < prev.1.len() implies record_viewport_of(
            recs,
            #[trigger] prev.1[j],
        ) by {
            lemma_record_viewport_extends(recs, prev.1[j]);
        }
        let st = read_traces(recs);
        assert forall|i: int, j: int|
            0 <= i < st.0.len() && 0 <= j < st.0[i].1.len() implies record_viewport_of(
            recs,
            #[trigger] st.0[i].1[j],
        ) by {
            if i < prev.0.len() {
                assert(st.0[i] == prev.0[i]);
            } else {
                assert(st.0[i] == (r.frame_id, prev.1));
            }
        }
        assert forall|j: int| 0 <= j < st.1.len() implies record_viewport_of(
            recs,
            #[trigger] st.1[j],
        ) by {
            if r.object_id != 0 && j < prev.1.len() {
                assert(st.1[j] == prev.1[j]);
            }
        }
    }
}

} // verus!
