//! The rules of copying edit settings from one frame to others: which modules
//! may be copied, which frames receive them, what part of the geometry
//! travels and how it merges into each target's, and which frames keep their
//! own film base.
use vstd::prelude::*;
use crate::app_state::{BaseColor, PipelineState};

verus! {

pub const GEOMETRY_MODULE: &'static str = "geometry";
pub const FILM_AREA_MODULE: &'static str = "film_area";
pub const FILM_BASE_MODULE: &'static str = "base_color";

pub const NO_MODULE_MESSAGE: &'static str = "At least one settings module is required";
pub const UNSUPPORTED_MODULE_PREFIX: &'static str = "Unsupported settings module: ";

/// A frame: the roll it belongs to and its file.
#[derive(Clone, Debug)]
pub struct ImageKey {
    pub roll_id: String,
    pub file_path: String,
}

/// What a settings copy changed.
#[derive(Clone, Debug)]
pub struct BatchCopyResult {
    pub updated: usize,
    pub targets: Vec<ImageKey>,
    pub modules: Vec<String>,
}

/// Two keys name the same frame.
pub open spec fn same_key(a: ImageKey, b: ImageKey) -> bool {
    a.roll_id@ == b.roll_id@ && a.file_path@ == b.file_path@
}

impl ImageKey {
    pub fn same_as(&self, other: &ImageKey) -> (r: bool)
        ensures
            r == same_key(*self, *other),
    {
        crate::text::str_eq(self.roll_id.as_str(), other.roll_id.as_str()) && crate::text::str_eq(
            self.file_path.as_str(),
            other.file_path.as_str(),
        )
    }

    pub fn duplicate(&self) -> (r: ImageKey)
        ensures
            same_key(r, *self),
    {
        ImageKey { roll_id: self.roll_id.clone(), file_path: self.file_path.clone() }
    }
}

/// A module name the settings copy knows.
pub open spec fn is_known_module(module: Seq<char>) -> bool {
    module == GEOMETRY_MODULE@ || module == FILM_AREA_MODULE@ || module == FILM_BASE_MODULE@
}

/// Why a module selection is refused, if it is: it is empty, or it names a
/// module the copy does not know (the first such is reported).
pub open spec fn module_refusal(modules: Seq<String>) -> Option<Seq<char>> {
    if modules.len() == 0 {
        Some(NO_MODULE_MESSAGE@)
    } else if exists|i: int| 0 <= i < modules.len() && !is_known_module(#[trigger] modules[i]@) {
        let i = choose|i: int|
            0 <= i < modules.len() && !is_known_module(#[trigger] modules[i]@) && forall|j: int|
                0 <= j < i ==> is_known_module(#[trigger] modules[j]@);
        Some(UNSUPPORTED_MODULE_PREFIX@ + modules[i]@)
    } else {
        None
    }
}

fn known_module(module: &str) -> (r: bool)
    ensures
        r == is_known_module(module@),
{
    crate::text::str_eq(module, GEOMETRY_MODULE) || crate::text::str_eq(module, FILM_AREA_MODULE)
        || crate::text::str_eq(module, FILM_BASE_MODULE)
}

pub fn validate_modules(modules: &Vec<String>) -> (r: Result<(), String>)
    ensures
        match module_refusal(modules@) {
            Some(message) => r is Err && r->Err_0@ == message,
            None => r is Ok,
        },
{
    if modules.len() == 0 {
        return Err(crate::text::owned(NO_MODULE_MESSAGE));
    }
    let mut i: usize = 0;
    while i < modules.len()
        invariant
            i <= modules@.len(),
            forall|j: int| 0 <= j < i ==> is_known_module(#[trigger] modules@[j]@),
        decreases modules.len() - i,
    {
        if !known_module(modules[i].as_str()) {
            let ghost chosen = choose|k: int|
                0 <= k < modules@.len() && !is_known_module(#[trigger] modules@[k]@) && forall|j: int|
                    0 <= j < k ==> is_known_module(#[trigger] modules@[j]@);
            assert(0 <= i < modules@.len() && !is_known_module(modules@[i as int]@) && forall|j: int|
                0 <= j < i ==> is_known_module(#[trigger] modules@[j]@));
            proof {
                if chosen < i {
                } else if chosen > i {
                    assert(is_known_module(modules@[i as int]@));
                }
            }
            return Err(crate::text::joined(UNSUPPORTED_MODULE_PREFIX, modules[i].as_str()));
        }
        i = i + 1;
    }
    Ok(())
}

/// Whether a module of the given name is selected.
pub open spec fn selects(modules: Seq<String>, name: Seq<char>) -> bool {
    exists|i: int| 0 <= i < modules.len() && (#[trigger] modules[i])@ == name
}

fn selected(modules: &Vec<String>, name: &str) -> (r: bool)
    ensures
        r == selects(modules@, name@),
{
    let mut i: usize = 0;
    while i < modules.len()
        invariant
            i <= modules@.len(),
            forall|j: int| 0 <= j < i ==> (#[trigger] modules@[j])@ != name@,
        decreases modules.len() - i,
    {
        if crate::text::str_eq(modules[i].as_str(), name) {
            return true;
        }
        i = i + 1;
    }
    false
}

/// What the copy takes from the source frame's geometry.
#[derive(Clone, Copy, Debug, PartialEq, Eq, Structural)]
pub enum GeometryCopy {
    /// The whole geometry.
    Whole,
    /// Only the film area: its calibration points and whether they are confirmed.
    FilmArea,
    /// Nothing.
    Nothing,
}

/// The whole geometry travels when it is selected; otherwise the film area
/// travels when that is selected.
pub open spec fn spec_geometry_copy(modules: Seq<String>) -> GeometryCopy {
    if selects(modules, GEOMETRY_MODULE@) {
        GeometryCopy::Whole
    } else if selects(modules, FILM_AREA_MODULE@) {
        GeometryCopy::FilmArea
    } else {
        GeometryCopy::Nothing
    }
}

pub fn geometry_copy(modules: &Vec<String>) -> (r: GeometryCopy)
    ensures
        r == spec_geometry_copy(modules@),
{
    if selected(modules, GEOMETRY_MODULE) {
        GeometryCopy::Whole
    } else if selected(modules, FILM_AREA_MODULE) {
        GeometryCopy::FilmArea
    } else {
        GeometryCopy::Nothing
    }
}

pub fn copies_film_base(modules: &Vec<String>) -> (r: bool)
    ensures
        r == selects(modules@, FILM_BASE_MODULE@),
{
    selected(modules, FILM_BASE_MODULE)
}

/// The roll and file of a frame.
pub open spec fn key_of(k: ImageKey) -> (Seq<char>, Seq<char>) {
    (k.roll_id@, k.file_path@)
}

/// The rolls and files of frames.
pub open spec fn keys_of(ks: Seq<ImageKey>) -> Seq<(Seq<char>, Seq<char>)> {
    ks.map_values(|k: ImageKey| key_of(k))
}

/// The frames a copy updates: the requested targets in order, without the
/// source frame and keeping only the first request of each frame.
pub open spec fn copy_target_keys(
    source: (Seq<char>, Seq<char>),
    targets: Seq<(Seq<char>, Seq<char>)>,
) -> Seq<(Seq<char>, Seq<char>)>
    decreases targets.len(),
{
    if targets.len() == 0 {
        Seq::empty()
    } else {
        let before = copy_target_keys(source, targets.drop_last());
        let t = targets.last();
        if t == source || before.contains(t) {
            before
        } else {
            before.push(t)
        }
    }
}

fn contains_key(keys: &Vec<ImageKey>, key: &ImageKey) -> (r: bool)
    ensures
        r == keys_of(keys@).contains(key_of(*key)),
{
    let mut i: usize = 0;
    while i < keys.len()
        invariant
            i <= keys@.len(),
            forall|j: int| 0 <= j < i ==> !same_key(#[trigger] keys@[j], *key),
        decreases keys.len() - i,
    {
        if keys[i].same_as(key) {
            assert(keys_of(keys@)[i as int] == key_of(*key));
            return true;
        }
        i = i + 1;
    }
    assert forall|j: int| 0 <= j < keys_of(keys@).len() implies keys_of(keys@)[j] != key_of(*key) by {
        assert(!same_key(keys@[j], *key));
    }
    false
}

pub fn copy_targets(source: &ImageKey, targets: &Vec<ImageKey>) -> (r: Vec<ImageKey>)
    ensures
        keys_of(r@) == copy_target_keys(key_of(*source), keys_of(targets@)),
{
    let ghost src = key_of(*source);
    let ghost all = keys_of(targets@);
    let mut out: Vec<ImageKey> = Vec::new();
    let mut k: usize = 0;
    while k < targets.len()
        invariant
            k <= targets@.len(),
            src == key_of(*source),
            all == keys_of(targets@),
            keys_of(out@) == copy_target_keys(src, all.subrange(0, k as int)),
        decreases targets.len() - k,
    {
        let target = &targets[k];
        assert(all.subrange(0, k + 1).drop_last() =~= all.subrange(0, k as int));
        assert(all.subrange(0, k + 1).last() == key_of(*target));
        if !target.same_as(source) && !contains_key(&out, target) {
            let ghost before = out@;
            let copy = target.duplicate();
            out.push(copy);
            assert(keys_of(out@) =~= keys_of(before).push(key_of(*target)));
        }
        k = k + 1;
    }
    assert(all.subrange(0, targets@.len() as int) =~= all);
    out
}

/// A frame keeps its own film base when it holds a base it measured itself.
/// `base_color` is the frame's stored base, when it has a readable one, and
/// `base_source` the source its pipeline state records (empty when none).
pub open spec fn spec_target_keeps_its_own_base(base_color: Option<BaseColor>, base_source: Seq<char>) -> bool {
    match base_color {
        Some(base) => crate::pipeline::spec_base_is_frame_measurement(base_source, base),
        None => false,
    }
}

pub fn target_keeps_its_own_base(base_color: Option<BaseColor>, base_source: &str) -> (r: bool)
    ensures
        r == spec_target_keeps_its_own_base(base_color, base_source@),
{
    match base_color {
        Some(base) => crate::pipeline::base_is_frame_measurement(base_source, &base),
        None => false,
    }
}

/// A settings copy never updates its source frame, updates each frame at
/// most once, updates every requested frame other than the source, and
/// updates no frame that was not requested.
pub proof fn law_copy_targets_are_the_requested_frames_once(
    source: (Seq<char>, Seq<char>),
    targets: Seq<(Seq<char>, Seq<char>)>,
)
    ensures
        forall|i: int| 0 <= i < copy_target_keys(source, targets).len() ==> #[trigger] copy_target_keys(
            source,
            targets,
        )[i] != source,
        forall|i: int, j: int| 0 <= i < j < copy_target_keys(source, targets).len() ==> copy_target_keys(
            source,
            targets,
        )[i] != copy_target_keys(source, targets)[j],
        forall|k: int| 0 <= k < targets.len() && #[trigger] targets[k] != source ==> copy_target_keys(
            source,
            targets,
        ).contains(targets[k]),
        forall|i: int| 0 <= i < copy_target_keys(source, targets).len() ==> targets.contains(
            #[trigger] copy_target_keys(source, targets)[i],
        ),
    decreases targets.len(),
{
    if targets.len() > 0 {
        let rest = targets.drop_last();
        law_copy_targets_are_the_requested_frames_once(source, rest);
        let before = copy_target_keys(source, rest);
        let after = copy_target_keys(source, targets);
        let t = targets.last();
        assert forall|i: int| 0 <= i < after.len() implies targets.contains(#[trigger] after[i]) by {
            if i < before.len() {
                assert(after[i] == before[i]);
                assert(rest.contains(before[i]));
                let w = choose|w: int| 0 <= w < rest.len() && rest[w] == before[i];
                assert(targets[w] == before[i]);
            } else {
                assert(after[i] == t);
                assert(targets[targets.len() - 1] == t);
            }
        }
        assert forall|k: int| 0 <= k < targets.len() && #[trigger] targets[k] != source implies after.contains(
            targets[k],
        ) by {
            if k < targets.len() - 1 {
                assert(rest[k] == targets[k]);
                assert(before.contains(targets[k]));
                let w = choose|w: int| 0 <= w < before.len() && before[w] == targets[k];
                assert(after[w] == targets[k]);
            } else if !before.contains(t) {
                assert(after[after.len() - 1] == t);
            }
        }
        assert forall|i: int, j: int| 0 <= i < j < after.len() implies after[i] != after[j] by {
            if j == before.len() {
                assert(after[i] == before[i]);
                assert(before.contains(before[i]));
            }
        }
    }
}

/// `marked` is `state` with only the film base's recorded source and
/// confidence replaced: the source says the base came from another frame.
pub open spec fn is_inherited_marking(marked: PipelineState, state: PipelineState) -> bool {
    let m = marked.processing_report;
    let r = state.processing_report;
    &&& marked.contract == state.contract
    &&& marked.density_anchors == state.density_anchors
    &&& marked.content_range == state.content_range
    &&& marked.render_mapping == state.render_mapping
    &&& m.base_source@ == crate::pipeline::INHERITED_FILM_BASE_SOURCE@
    &&& m.base_confidence@ == "1.000"@
    &&& m.stages == r.stages
    &&& m.fallback_reasons == r.fallback_reasons
    &&& m.excluded_open_light_pixels == r.excluded_open_light_pixels
    &&& m.excluded_saturated_pixels == r.excluded_saturated_pixels
    &&& m.excluded_invalid_pixels == r.excluded_invalid_pixels
    &&& m.tone_mapping_mode == r.tone_mapping_mode
    &&& m.uses_physical_anchors == r.uses_physical_anchors
    &&& m.analysis_data_domain == r.analysis_data_domain
    &&& m.render_route == r.render_route
    &&& m.fallback_reason == r.fallback_reason
    &&& m.input_domain == r.input_domain
    &&& m.analysis_window_rule == r.analysis_window_rule
}

/// Keep the target's own state but record that the inversion it now renders
/// came from another frame's film base, so the base is re-measured on its
/// first decode.
pub fn mark_inherited_film_base(state: PipelineState) -> (marked: PipelineState)
    ensures
        is_inherited_marking(marked, state),
{
    let mut marked = state;
    marked.processing_report.base_source = crate::text::owned(crate::pipeline::INHERITED_FILM_BASE_SOURCE);
    marked.processing_report.base_confidence = crate::text::owned("1.000");
    marked
}


/// A frame whose film base was inherited by a copy re-measures it: the
/// next copy of a film base replaces it, whatever base the frame holds.
pub proof fn law_an_inherited_base_is_never_kept(marked: PipelineState, state: PipelineState, base: Option<BaseColor>)
    requires
        is_inherited_marking(marked, state),
    ensures
        !spec_target_keeps_its_own_base(base, marked.processing_report.base_source@),
{
}


// ---------------------------------------------------------------------------
// Merging stored geometry
// ---------------------------------------------------------------------------

/// A JSON value of stored edit settings: numbers keep their JSON text, and
/// object members their order.
#[derive(Debug)]
pub enum JsonValue {
    Null,
    Bool(bool),
    Number(String),
    Text(String),
    Array(Vec<JsonValue>),
    Object(Vec<(String, JsonValue)>),
}

/// The content of a JSON value.
pub enum Json {
    Null,
    Bool(bool),
    Number(Seq<char>),
    Text(Seq<char>),
    Array(Seq<Json>),
    Object(Seq<(Seq<char>, Json)>),
}

/// The content of `v`.
pub open spec fn json_of(v: JsonValue) -> Json
    decreases v,
{
    match v {
        JsonValue::Null => Json::Null,
        JsonValue::Bool(b) => Json::Bool(b),
        JsonValue::Number(n) => Json::Number(n@),
        JsonValue::Text(t) => Json::Text(t@),
        JsonValue::Array(items) => Json::Array(
            Seq::new(items@.len(), |i: int| if 0 <= i < items@.len() { json_of(items@[i]) } else { Json::Null }),
        ),
        JsonValue::Object(members) => Json::Object(
            Seq::new(
                members@.len(),
                |i: int|
                    if 0 <= i < members@.len() {
                        (members@[i].0@, json_of(members@[i].1))
                    } else {
                        (Seq::empty(), Json::Null)
                    },
            ),
        ),
    }
}

/// The content of object members.
pub open spec fn members_json(m: Seq<(String, JsonValue)>) -> Seq<(Seq<char>, Json)> {
    Seq::new(m.len(), |i: int| (m[i].0@, json_of(m[i].1)))
}

/// The first member named `name`, or -1 when there is none.
pub open spec fn member_index(m: Seq<(Seq<char>, Json)>, name: Seq<char>) -> int
    decreases m.len(),
{
    if m.len() == 0 {
        -1
    } else {
        let i = member_index(m.drop_last(), name);
        if i >= 0 {
            i
        } else if m.last().0 == name {
            m.len() - 1
        } else {
            -1
        }
    }
}

/// `source` merged into `target`: when both are objects, each member of the
/// source in turn merges into the target member of the same name, or joins
/// the object when it has none; otherwise the source replaces the target.
pub open spec fn merged(target: Json, source: Json) -> Json
    decreases source, 0int,
{
    match source {
        Json::Object(sm) => match target {
            Json::Object(tm) => Json::Object(merge_members(tm, sm, sm.len() as int)),
            _ => source,
        },
        _ => source,
    }
}

/// The target members after the first `k` source members were merged in.
pub open spec fn merge_members(tm: Seq<(Seq<char>, Json)>, sm: Seq<(Seq<char>, Json)>, k: int) -> Seq<
    (Seq<char>, Json),
>
    decreases sm, k,
{
    if k <= 0 || k > sm.len() {
        tm
    } else {
        let cur = merge_members(tm, sm, k - 1);
        let i = member_index(cur, sm[k - 1].0);
        proof {
            assert(decreases_to!(sm => sm[k - 1]));
        }
        if 0 <= i < cur.len() {
            cur.update(i, (cur[i].0, merged(cur[i].1, sm[k - 1].1)))
        } else {
            cur.push(sm[k - 1])
        }
    }
}

proof fn lemma_member_index(m: Seq<(Seq<char>, Json)>, name: Seq<char>)
    ensures
        -1 <= member_index(m, name) < m.len(),
        member_index(m, name) >= 0 ==> m[member_index(m, name)].0 == name,
        forall|j: int| 0 <= j < m.len() && (member_index(m, name) < 0 || j < member_index(m, name)) ==> #[trigger] m[j].0
            != name,
    decreases m.len(),
{
    if m.len() > 0 {
        lemma_member_index(m.drop_last(), name);
        assert forall|j: int| 0 <= j < m.len() - 1 implies #[trigger] m[j] == m.drop_last()[j] by {}
    }
}

proof fn lemma_object_json(members: Vec<(String, JsonValue)>)
    ensures
        json_of(JsonValue::Object(members)) == Json::Object(members_json(members@)),
{
    assert(json_of(JsonValue::Object(members))->Object_0 =~= members_json(members@));
}

/// A deep copy of a JSON value.
pub fn copy_json(v: &JsonValue) -> (r: JsonValue)
    ensures
        json_of(r) == json_of(*v),
    decreases v,
{
    match v {
        JsonValue::Null => JsonValue::Null,
        JsonValue::Bool(b) => JsonValue::Bool(*b),
        JsonValue::Number(n) => JsonValue::Number(crate::text::owned(n.as_str())),
        JsonValue::Text(t) => JsonValue::Text(crate::text::owned(t.as_str())),
        JsonValue::Array(items) => {
            let mut out: Vec<JsonValue> = Vec::new();
            let mut i: usize = 0;
            while i < items.len()
                invariant
                    *v == JsonValue::Array(*items),
                    i <= items@.len(),
                    out@.len() == i,
                    forall|k: int| 0 <= k < i ==> json_of(#[trigger] out@[k]) == json_of(items@[k]),
                decreases items@.len() - i,
            {
                assert(decreases_to!(*v => (*v)->Array_0));
                assert(decreases_to!((*v)->Array_0 => ((*v)->Array_0)@));
                assert(decreases_to!(((*v)->Array_0)@ => ((*v)->Array_0)@[i as int]));
                let c = copy_json(&items[i]);
                out.push(c);
                i = i + 1;
            }
            let r = JsonValue::Array(out);
            assert(json_of(r)->Array_0 =~= json_of(*v)->Array_0);
            r
        },
        JsonValue::Object(members) => {
            let mut out: Vec<(String, JsonValue)> = Vec::new();
            let mut i: usize = 0;
            while i < members.len()
                invariant
                    *v == JsonValue::Object(*members),
                    i <= members@.len(),
                    out@.len() == i,
                    forall|k: int| 0 <= k < i ==> #[trigger] out@[k].0@ == members@[k].0@ && json_of(out@[k].1) == json_of(
                        members@[k].1,
                    ),
                decreases members@.len() - i,
            {
                assert(decreases_to!(*v => (*v)->Object_0));
                assert(decreases_to!((*v)->Object_0 => ((*v)->Object_0)@));
                assert(decreases_to!(((*v)->Object_0)@ => ((*v)->Object_0)@[i as int]));
                assert(decreases_to!(((*v)->Object_0)@[i as int] => ((*v)->Object_0)@[i as int].1));
                let name = crate::text::owned(members[i].0.as_str());
                let c = copy_json(&members[i].1);
                out.push((name, c));
                i = i + 1;
            }
            let r = JsonValue::Object(out);
            assert(json_of(r)->Object_0 =~= json_of(*v)->Object_0);
            r
        },
    }
}

/// Where the first member named `name` is, if any member has that name.
fn find_member(members: &Vec<(String, JsonValue)>, name: &str) -> (r: Option<usize>)
    ensures
        match r {
            Some(i) => i < members@.len() && member_index(members_json(members@), name@) == i,
            None => member_index(members_json(members@), name@) == -1,
        },
{
    let ghost m = members_json(members@);
    proof {
        lemma_member_index(m, name@);
    }
    let mut i: usize = 0;
    while i < members.len()
        invariant
            m == members_json(members@),
            i <= members@.len(),
            forall|j: int| 0 <= j < i ==> #[trigger] m[j].0 != name@,
            -1 <= member_index(m, name@) < m.len(),
            member_index(m, name@) >= 0 ==> m[member_index(m, name@)].0 == name@,
            forall|j: int|
                0 <= j < m.len() && (member_index(m, name@) < 0 || j < member_index(m, name@)) ==> #[trigger] m[j].0
                    != name@,
        decreases members@.len() - i,
    {
        if crate::text::str_eq(members[i].0.as_str(), name) {
            assert(m[i as int].0 == name@);
            return Some(i);
        }
        i = i + 1;
    }
    None
}

/// `source` merged into `target`: members the source holds replace or merge
/// into the target's, and members only the target holds stay as they are.
pub fn merge_json(target: JsonValue, source: &JsonValue) -> (r: JsonValue)
    ensures
        json_of(r) == merged(json_of(target), json_of(*source)),
    decreases source,
{
    match source {
        JsonValue::Object(source_members) => match target {
            JsonValue::Object(members) => {
                let mut members = members;
                let ghost tm = members_json(members@);
                let ghost sm = members_json(source_members@);
                proof {
                    lemma_object_json(members);
                    lemma_object_json(*source_members);
                }
                let mut k: usize = 0;
                while k < source_members.len()
                    invariant
                        *source == JsonValue::Object(*source_members),
                        sm == members_json(source_members@),
                        k <= source_members@.len(),
                        members_json(members@) == merge_members(tm, sm, k as int),
                    decreases source_members@.len() - k,
                {
                    let ghost cur = members_json(members@);
                    let name = &source_members[k].0;
                    let value = &source_members[k].1;
                    assert(sm[k as int] == (name@, json_of(*value)));
                    match find_member(&members, name.as_str()) {
                        Some(i) => {
                            let ghost before = members@;
                            let (member_name, old) = members.remove(i);
                            assert(decreases_to!(*source => (*source)->Object_0));
                            assert(decreases_to!((*source)->Object_0 => ((*source)->Object_0)@));
                            assert(decreases_to!(((*source)->Object_0)@ => ((*source)->Object_0)@[k as int]));
                            assert(decreases_to!(((*source)->Object_0)@[k as int] => ((*source)->Object_0)@[k as int].1));
                            let m = merge_json(old, value);
                            members.insert(i, (member_name, m));
                            assert(members@ =~= before.update(i as int, (member_name, m)));
                            assert(members_json(members@) =~= cur.update(
                                i as int,
                                (cur[i as int].0, merged(cur[i as int].1, sm[k as int].1)),
                            ));
                        },
                        None => {
                            let copy = copy_json(value);
                            members.push((crate::text::owned(name.as_str()), copy));
                            assert(members_json(members@) =~= cur.push(sm[k as int]));
                        },
                    }
                    k = k + 1;
                }
                let r = JsonValue::Object(members);
                proof {
                    lemma_object_json(members);
                }
                r
            },
            _ => copy_json(source),
        },
        _ => copy_json(source),
    }
}

pub const CALIBRATION_POINTS: &'static str = "calibration_points";
pub const CALIBRATION_CONFIRMED: &'static str = "calibration_confirmed";

/// The member `name` of an object; `None` for other values and for objects
/// without it.
pub open spec fn member_of(v: Json, name: Seq<char>) -> Option<Json> {
    match v {
        Json::Object(m) => {
            let i = member_index(m, name);
            if 0 <= i < m.len() {
                Some(m[i].1)
            } else {
                None
            }
        },
        _ => None,
    }
}

/// The film area of a geometry, as a film-area copy carries it: the
/// calibration points (null when there are none) and whether they are
/// confirmed (false when that is not stated).
pub open spec fn spec_film_area(geometry: Json) -> Json {
    Json::Object(
        seq![
            (CALIBRATION_POINTS@, match member_of(geometry, CALIBRATION_POINTS@) {
                Some(points) => points,
                None => Json::Null,
            }),
            (CALIBRATION_CONFIRMED@, match member_of(geometry, CALIBRATION_CONFIRMED@) {
                Some(confirmed) => confirmed,
                None => Json::Bool(false),
            }),
        ],
    )
}

/// A copy of member `name` of `geometry`, or `fallback` when it has none.
fn member_or(geometry: &JsonValue, name: &str, fallback: JsonValue) -> (r: JsonValue)
    ensures
        json_of(r) == match member_of(json_of(*geometry), name@) {
            Some(found) => found,
            None => json_of(fallback),
        },
{
    match geometry {
        JsonValue::Object(members) => {
            proof {
                lemma_object_json(*members);
            }
            match find_member(members, name) {
                Some(i) => copy_json(&members[i].1),
                None => fallback,
            }
        },
        _ => fallback,
    }
}

/// The part of a geometry that a film-area copy carries.
pub fn film_area(geometry: &JsonValue) -> (r: JsonValue)
    ensures
        json_of(r) == spec_film_area(json_of(*geometry)),
{
    let points = member_or(geometry, CALIBRATION_POINTS, JsonValue::Null);
    let confirmed = member_or(geometry, CALIBRATION_CONFIRMED, JsonValue::Bool(false));
    let mut members: Vec<(String, JsonValue)> = Vec::new();
    members.push((crate::text::owned(CALIBRATION_POINTS), points));
    members.push((crate::text::owned(CALIBRATION_CONFIRMED), confirmed));
    let r = JsonValue::Object(members);
    proof {
        lemma_object_json(members);
    }
    assert(members_json(members@) =~= spec_film_area(json_of(*geometry))->Object_0);
    r
}

/// No two members share a name.
pub open spec fn names_distinct(m: Seq<(Seq<char>, Json)>) -> bool {
    forall|i: int, j: int| 0 <= i < j < m.len() ==> m[i].0 != m[j].0
}

proof fn lemma_index_of_distinct(m: Seq<(Seq<char>, Json)>, i: int)
    requires
        names_distinct(m),
        0 <= i < m.len(),
    ensures
        member_index(m, m[i].0) == i,
{
    lemma_member_index(m, m[i].0);
    let f = member_index(m, m[i].0);
    if f >= 0 && f != i {
        if f < i {
            assert(m[f].0 != m[i].0);
        } else {
            assert(m[i].0 != m[f].0);
        }
    }
}

proof fn lemma_member_index_by_names(a: Seq<(Seq<char>, Json)>, b: Seq<(Seq<char>, Json)>, name: Seq<char>)
    requires
        a.len() == b.len(),
        forall|i: int| 0 <= i < a.len() ==> #[trigger] a[i].0 == b[i].0,
    ensures
        member_index(a, name) == member_index(b, name),
    decreases a.len(),
{
    if a.len() > 0 {
        assert forall|i: int| 0 <= i < a.len() - 1 implies #[trigger] a.drop_last()[i].0 == b.drop_last()[i].0 by {
            assert(a.drop_last()[i] == a[i]);
            assert(b.drop_last()[i] == b[i]);
        }
        lemma_member_index_by_names(a.drop_last(), b.drop_last(), name);
    }
}

proof fn lemma_member_index_push(m: Seq<(Seq<char>, Json)>, x: (Seq<char>, Json), name: Seq<char>)
    ensures
        member_index(m, name) >= 0 ==> member_index(m.push(x), name) == member_index(m, name),
        member_index(m, name) < 0 && x.0 == name ==> member_index(m.push(x), name) == m.len(),
{
    assert(m.push(x).drop_last() =~= m);
}

/// The shape of the members after the first `k` source members were merged
/// in, when neither side repeats a name.
proof fn lemma_merge_members_shape(tm: Seq<(Seq<char>, Json)>, sm: Seq<(Seq<char>, Json)>, k: int)
    requires
        names_distinct(tm),
        names_distinct(sm),
        0 <= k <= sm.len(),
    ensures
        ({
            let r = merge_members(tm, sm, k);
            &&& tm.len() <= r.len()
            &&& forall|i: int| 0 <= i < tm.len() ==> #[trigger] r[i].0 == tm[i].0 && r[i].1 == {
                let q = member_index(sm, tm[i].0);
                if 0 <= q < k {
                    merged(tm[i].1, sm[q].1)
                } else {
                    tm[i].1
                }
            }
            &&& forall|j: int| tm.len() <= j < r.len() ==> 0 <= member_index(sm, #[trigger] r[j].0) < k && r[j]
                == sm[member_index(sm, r[j].0)] && member_index(tm, r[j].0) < 0
            &&& names_distinct(r)
            &&& forall|q: int| 0 <= q < k ==> member_index(r, #[trigger] sm[q].0) >= 0
        }),
    decreases k,
{
    if k > 0 {
        lemma_merge_members_shape(tm, sm, k - 1);
        let cur = merge_members(tm, sm, k - 1);
        let r = merge_members(tm, sm, k);
        let n = sm[k - 1].0;
        let v = sm[k - 1].1;
        lemma_index_of_distinct(sm, k - 1);
        lemma_member_index(cur, n);
        lemma_member_index(tm, n);
        let i = member_index(cur, n);
        if 0 <= i < cur.len() {
            assert(r == cur.update(i, (cur[i].0, merged(cur[i].1, v))));
            if i >= tm.len() {
                assert(0 <= member_index(sm, cur[i].0) < k - 1);
                assert(false);
            }
            assert forall|i2: int| 0 <= i2 < tm.len() implies #[trigger] r[i2].0 == tm[i2].0 && r[i2].1 == {
                let q = member_index(sm, tm[i2].0);
                if 0 <= q < k {
                    merged(tm[i2].1, sm[q].1)
                } else {
                    tm[i2].1
                }
            } by {
                let q = member_index(sm, tm[i2].0);
                lemma_member_index(sm, tm[i2].0);
                assert(cur[i2].0 == tm[i2].0);
                assert(cur[i2].1 == if 0 <= q < k - 1 { merged(tm[i2].1, sm[q].1) } else { tm[i2].1 });
                if i2 != i {
                    assert(r[i2] == cur[i2]);
                    if q == k - 1 {
                        if i2 < i {
                            assert(tm[i2].0 != tm[i].0);
                        } else {
                            assert(tm[i].0 != tm[i2].0);
                        }
                    }
                } else {
                    assert(tm[i].0 == n);
                    assert(q == k - 1);
                    assert(r[i].1 == merged(cur[i].1, v));
                }
            }
            assert forall|q: int| 0 <= q < k implies member_index(r, #[trigger] sm[q].0) >= 0 by {
                assert forall|x: int| 0 <= x < r.len() implies #[trigger] r[x].0 == cur[x].0 by {}
                lemma_member_index_by_names(r, cur, sm[q].0);
            }
        } else {
            assert(r == cur.push(sm[k - 1]));
            assert forall|i2: int| 0 <= i2 < tm.len() implies #[trigger] r[i2].0 == tm[i2].0 && r[i2].1 == {
                let q = member_index(sm, tm[i2].0);
                if 0 <= q < k {
                    merged(tm[i2].1, sm[q].1)
                } else {
                    tm[i2].1
                }
            } by {
                let q = member_index(sm, tm[i2].0);
                lemma_member_index(sm, tm[i2].0);
                assert(cur[i2].0 == tm[i2].0);
                assert(cur[i2].0 != n);
                assert(cur[i2].1 == if 0 <= q < k - 1 { merged(tm[i2].1, sm[q].1) } else { tm[i2].1 });
                assert(r[i2] == cur[i2]);
                assert(q != k - 1);
            }
            assert(member_index(tm, n) < 0) by {
                if member_index(tm, n) >= 0 {
                    let a = member_index(tm, n);
                    assert(cur[a].0 == n);
                }
            }
            assert(names_distinct(r)) by {
                assert forall|a: int, b: int| 0 <= a < b < r.len() implies r[a].0 != r[b].0 by {
                    if b == cur.len() {
                        assert(cur[a].0 != n);
                    }
                }
            }
            assert forall|q: int| 0 <= q < k implies member_index(r, #[trigger] sm[q].0) >= 0 by {
                lemma_member_index_push(cur, sm[k - 1], sm[q].0);
            }
        }
    }
}

/// Merging one object of settings into another keeps every member that
/// only the target holds, gives every member the source holds the source's
/// value merged into the target's (the source's own value where the target
/// has none, or where that value is not an object), adds no other member,
/// and keeps member names distinct. Both objects must have distinct member
/// names, as JSON objects do.
pub proof fn law_merge_keeps_target_members_and_takes_source_members(
    tm: Seq<(Seq<char>, Json)>,
    sm: Seq<(Seq<char>, Json)>,
)
    requires
        names_distinct(tm),
        names_distinct(sm),
    ensures
        ({
            let t = Json::Object(tm);
            let s = Json::Object(sm);
            let r = merged(t, s);
            &&& r is Object
            &&& names_distinct(r->Object_0)
            &&& forall|i: int| 0 <= i < tm.len() && member_of(s, #[trigger] tm[i].0) is None ==> member_of(
                r,
                tm[i].0,
            ) == Some(tm[i].1)
            &&& forall|q: int| 0 <= q < sm.len() ==> member_of(r, #[trigger] sm[q].0) == Some(
                match member_of(t, sm[q].0) {
                    Some(tv) => merged(tv, sm[q].1),
                    None => sm[q].1,
                },
            )
            &&& forall|q: int| 0 <= q < sm.len() && !(#[trigger] sm[q].1 is Object) ==> member_of(r, sm[q].0) == Some(
                sm[q].1,
            )
            &&& forall|j: int| 0 <= j < r->Object_0.len() ==> member_of(t, #[trigger] r->Object_0[j].0) is Some
                || member_of(s, r->Object_0[j].0) is Some
        }),
{
    let t = Json::Object(tm);
    let s = Json::Object(sm);
    let k = sm.len() as int;
    lemma_merge_members_shape(tm, sm, k);
    let rm = merge_members(tm, sm, k);
    assert(merged(t, s) == Json::Object(rm));
    assert forall|i: int| 0 <= i < tm.len() && member_of(s, #[trigger] tm[i].0) is None implies member_of(
        Json::Object(rm),
        tm[i].0,
    ) == Some(tm[i].1) by {
        lemma_index_of_distinct(rm, i);
        lemma_member_index(sm, tm[i].0);
    }
    assert forall|q: int| 0 <= q < sm.len() implies member_of(Json::Object(rm), #[trigger] sm[q].0) == Some(
        match member_of(t, sm[q].0) {
            Some(tv) => merged(tv, sm[q].1),
            None => sm[q].1,
        },
    ) by {
        let n = sm[q].0;
        lemma_index_of_distinct(sm, q);
        lemma_member_index(tm, n);
        lemma_member_index(rm, n);
        let a = member_index(rm, n);
        if a < tm.len() {
            lemma_index_of_distinct(tm, a);
        } else {
            assert(rm[a] == sm[member_index(sm, rm[a].0)]);
        }
    }
    assert forall|q: int| 0 <= q < sm.len() && !(#[trigger] sm[q].1 is Object) implies member_of(
        Json::Object(rm),
        sm[q].0,
    ) == Some(sm[q].1) by {
        assert(member_of(Json::Object(rm), sm[q].0) == Some(
            match member_of(t, sm[q].0) {
                Some(tv) => merged(tv, sm[q].1),
                None => sm[q].1,
            },
        ));
    }
    assert forall|j: int| 0 <= j < rm.len() implies member_of(t, #[trigger] rm[j].0) is Some || member_of(
        s,
        rm[j].0,
    ) is Some by {
        if j < tm.len() {
            lemma_index_of_distinct(tm, j);
        } else {
            lemma_member_index(sm, rm[j].0);
        }
    }
}

/// No object anywhere in `j` repeats a member name, as in every JSON value
/// the settings store reads.
pub open spec fn json_wf(j: Json) -> bool
    decreases j,
{
    match j {
        Json::Object(m) => names_distinct(m) && forall|i: int| 0 <= i < m.len() ==> json_wf(#[trigger] m[i].1),
        Json::Array(a) => forall|i: int| 0 <= i < a.len() ==> json_wf(#[trigger] a[i]),
        _ => true,
    }
}

proof fn lemma_merge_into_itself(x: Json)
    requires
        json_wf(x),
    ensures
        merged(x, x) == x,
    decreases x,
{
    if let Json::Object(m) = x {
        let n = m.len() as int;
        lemma_merge_members_shape(m, m, n);
        let r = merge_members(m, m, n);
        assert forall|i: int| 0 <= i < n implies merged(#[trigger] m[i].1, m[i].1) == m[i].1 by {
            assert(decreases_to!(x => x->Object_0));
            assert(decreases_to!(x->Object_0 => x->Object_0[i]));
            assert(decreases_to!(x->Object_0[i] => x->Object_0[i].1));
            lemma_merge_into_itself(m[i].1);
        }
        assert forall|i: int| 0 <= i < n implies #[trigger] r[i] == m[i] by {
            lemma_index_of_distinct(m, i);
        }
        if r.len() > n {
            lemma_member_index(m, r[n].0);
            assert(member_index(m, r[n].0) < 0);
            assert(0 <= member_index(m, r[n].0));
        }
        assert(r =~= m);
    }
}

proof fn lemma_merge_twice(t: Json, s: Json)
    requires
        json_wf(t),
        json_wf(s),
    ensures
        merged(merged(t, s), s) == merged(t, s),
    decreases s,
{
    lemma_merge_into_itself(s);
    if let Json::Object(sm) = s {
        if let Json::Object(tm) = t {
            let n = sm.len() as int;
            lemma_merge_members_shape(tm, sm, n);
            let r = merge_members(tm, sm, n);
            lemma_merge_members_shape(r, sm, n);
            let r2 = merge_members(r, sm, n);
            assert(merged(t, s) == Json::Object(r));
            assert(merged(Json::Object(r), s) == Json::Object(r2));
            assert forall|i: int| 0 <= i < r.len() implies #[trigger] r2[i] == r[i] by {
                let q = member_index(sm, r[i].0);
                lemma_member_index(sm, r[i].0);
                if 0 <= q < n {
                    assert(decreases_to!(s => s->Object_0));
                    assert(decreases_to!(s->Object_0 => s->Object_0[q]));
                    assert(decreases_to!(s->Object_0[q] => s->Object_0[q].1));
                    if i < tm.len() {
                        assert(r[i].0 == tm[i].0);
                        assert(json_wf(tm[i].1));
                        lemma_merge_twice(tm[i].1, sm[q].1);
                    } else {
                        assert(r[i] == sm[q]);
                        lemma_merge_into_itself(sm[q].1);
                    }
                }
            }
            if r2.len() > r.len() {
                let j = r.len() as int;
                let q = member_index(sm, r2[j].0);
                lemma_member_index(sm, r2[j].0);
                assert(sm[q].0 == r2[j].0);
                assert(member_index(r, sm[q].0) >= 0);
                assert(member_index(r, r2[j].0) < 0);
            }
            assert(r2 =~= r);
        }
    }
}

/// Merging the same settings a second time changes nothing: copying a
/// module twice leaves the target as copying it once. Neither value may
/// repeat a member name in any object, as no JSON value the store reads
/// does.
pub proof fn law_merging_twice_is_merging_once(target: Json, source: Json)
    requires
        json_wf(target),
        json_wf(source),
    ensures
        merged(merged(target, source), source) == merged(target, source),
{
    lemma_merge_twice(target, source);
}

/// A film-area copy changes nothing of the target's geometry but its film
/// area: every other member of the target stays as it was, and the
/// calibration points and their confirmation become the source's (where
/// these are not objects, which they never are in a stored geometry).
pub proof fn law_film_area_copy_changes_only_the_film_area(tm: Seq<(Seq<char>, Json)>, geometry: Json)
    requires
        names_distinct(tm),
    ensures
        ({
            let area = spec_film_area(geometry);
            let r = merged(Json::Object(tm), area);
            &&& forall|i: int|
                0 <= i < tm.len() && #[trigger] tm[i].0 != CALIBRATION_POINTS@ && tm[i].0 != CALIBRATION_CONFIRMED@
                    ==> member_of(r, tm[i].0) == Some(tm[i].1)
            &&& !(area->Object_0[0].1 is Object) ==> member_of(r, CALIBRATION_POINTS@) == Some(area->Object_0[0].1)
            &&& !(area->Object_0[1].1 is Object) ==> member_of(r, CALIBRATION_CONFIRMED@) == Some(
                area->Object_0[1].1,
            )
        }),
{
    let area = spec_film_area(geometry);
    let sm = area->Object_0;
    reveal_strlit("calibration_points");
    reveal_strlit("calibration_confirmed");
    assert(sm[0].0 != sm[1].0) by {
        assert(sm[0].0[12] != sm[1].0[12]);
    }
    assert(names_distinct(sm));
    law_merge_keeps_target_members_and_takes_source_members(tm, sm);
    assert forall|i: int|
        0 <= i < tm.len() && #[trigger] tm[i].0 != CALIBRATION_POINTS@ && tm[i].0 != CALIBRATION_CONFIRMED@ implies member_of(
        merged(Json::Object(tm), area),
        tm[i].0,
    ) == Some(tm[i].1) by {
        lemma_member_index(sm, tm[i].0);
        if member_index(sm, tm[i].0) >= 0 {
            let q = member_index(sm, tm[i].0);
            assert(q == 0 || q == 1);
        }
    }
    assert(sm[0].0 == CALIBRATION_POINTS@);
    assert(sm[1].0 == CALIBRATION_CONFIRMED@);
}

} // verus!
