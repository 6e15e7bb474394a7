//! The versioned state document and its schema migration.
//!
//! A workspace document is persisted as a JSON-equivalent object carrying a
//! `version` tag. The older shape holds one flat session record; the current
//! shape holds an ordered list of tabs plus an optional active-tab id. An
//! older document read from disk is upgraded in memory by a total, pure
//! migration, and an active tab can be projected back down to the older
//! shape for an older consumer.

use vstd::prelude::*;

use crate::json::{fields_model, has_key, items_model, lookup, JsonModel, JsonValue};
use crate::number::{dec_str, spec_parse_u32};

verus! {

broadcast use vstd::std_specs::vec::group_vec_axioms, vstd::seq::group_seq_axioms, vstd::string::group_string_axioms;

/// The older, flat document: one session record.
#[derive(Debug, PartialEq, Eq)]
pub struct WorkspaceV1 {
    pub version: u32,
    pub left_text: String,
    pub right_text: String,
    pub recipe_path: String,
    pub model: String,
    pub params: JsonValue,
    pub project_path: Option<String>,
    pub updated_at: String,
}

/// One tab of the current document.
#[derive(Debug, PartialEq, Eq)]
pub struct WorkspaceTab {
    pub id: String,
    pub left_text: String,
    pub right_text: String,
    pub recipe_path: String,
    pub model: String,
    pub params: JsonValue,
    pub project_path: Option<String>,
    pub updated_at: String,
}

/// The current document: an ordered tab list and an optional active-tab id.
#[derive(Debug, PartialEq, Eq)]
pub struct WorkspaceV2 {
    pub version: u32,
    pub tabs: Vec<WorkspaceTab>,
    pub active_tab: Option<String>,
}

/// Mathematical shape of a `WorkspaceV1`.
#[verifier::ext_equal]
pub struct V1Model {
    pub version: u32,
    pub left_text: Seq<char>,
    pub right_text: Seq<char>,
    pub recipe_path: Seq<char>,
    pub model: Seq<char>,
    pub params: JsonModel,
    pub project_path: Option<Seq<char>>,
    pub updated_at: Seq<char>,
}

/// Mathematical shape of a `WorkspaceTab`.
#[verifier::ext_equal]
pub struct TabModel {
    pub id: Seq<char>,
    pub left_text: Seq<char>,
    pub right_text: Seq<char>,
    pub recipe_path: Seq<char>,
    pub model: Seq<char>,
    pub params: JsonModel,
    pub project_path: Option<Seq<char>>,
    pub updated_at: Seq<char>,
}

/// Mathematical shape of a `WorkspaceV2`.
#[verifier::ext_equal]
pub struct V2Model {
    pub version: u32,
    pub tabs: Seq<TabModel>,
    pub active_tab: Option<Seq<char>>,
}

/// The view of an optional owned string.
pub open spec fn opt_model(o: Option<String>) -> Option<Seq<char>> {
    match o {
        Some(s) => Some(s@),
        None => None,
    }
}

impl WorkspaceV1 {
    /// The document as a mathematical record.
    pub open spec fn model(self) -> V1Model {
        V1Model {
            version: self.version,
            left_text: self.left_text@,
            right_text: self.right_text@,
            recipe_path: self.recipe_path@,
            model: self.model@,
            params: self.params.model(),
            project_path: opt_model(self.project_path),
            updated_at: self.updated_at@,
        }
    }
}

impl WorkspaceTab {
    /// The tab as a mathematical record.
    pub open spec fn model(self) -> TabModel {
        TabModel {
            id: self.id@,
            left_text: self.left_text@,
            right_text: self.right_text@,
            recipe_path: self.recipe_path@,
            model: self.model@,
            params: self.params.model(),
            project_path: opt_model(self.project_path),
            updated_at: self.updated_at@,
        }
    }
}

/// The model of a tab list.
pub open spec fn tabs_model(tabs: Seq<WorkspaceTab>) -> Seq<TabModel>
    decreases tabs,
{
    if tabs.len() == 0 {
        Seq::empty()
    } else {
        seq![tabs[0].model()] + tabs_model(tabs.drop_first())
    }
}

/// `tabs_model` maps the list tab by tab.
pub proof fn lemma_tabs_model(tabs: Seq<WorkspaceTab>)
    ensures
        tabs_model(tabs).len() == tabs.len(),
        forall|i: int|
            0 <= i < tabs.len() ==> #[trigger] tabs_model(tabs)[i] == tabs[i].model(),
    decreases tabs,
{
    if tabs.len() > 0 {
        lemma_tabs_model(tabs.drop_first());
        assert forall|i: int| 0 <= i < tabs.len() implies #[trigger] tabs_model(tabs)[i]
            == tabs[i].model() by {
            if i > 0 {
                assert(tabs.drop_first()[i - 1] == tabs[i]);
            }
        }
    }
}

impl WorkspaceV2 {
    /// The document as a mathematical record.
    pub open spec fn model(self) -> V2Model {
        V2Model {
            version: self.version,
            tabs: tabs_model(self.tabs@),
            active_tab: opt_model(self.active_tab),
        }
    }

    /// A well-formed document carries the current version tag, and its
    /// active-tab id, when present, references an existing tab. A stale id
    /// read from disk is tolerated: the projection to the older shape
    /// falls back to the first tab rather than failing.
    pub open spec fn wf(self) -> bool {
        let m = self.model();
        &&& m.version == CURRENT_VERSION
        &&& match m.active_tab {
            Some(id) => has_tab(m.tabs, id),
            None => true,
        }
    }
}

/// A migrated document is well formed: it carries the current version and
/// its active-tab id references the one tab the migration made.
pub proof fn lemma_from_v1_well_formed(v1: WorkspaceV1, r: WorkspaceV2)
    requires
        r.model() == spec_from_v1(v1.model()),
    ensures
        r.wf(),
{
    assert(r.model().tabs[0].id == default_tab_id());
}

/// The current schema version.
pub const CURRENT_VERSION: u32 = 2;

/// The id given to the single tab made from an older flat document.
pub open spec fn default_tab_id() -> Seq<char> {
    "default"@
}

/// What migration does: the flat record becomes the sole tab, under a fixed
/// synthetic id, and that tab is made active.
pub open spec fn spec_from_v1(m: V1Model) -> V2Model {
    V2Model {
        version: CURRENT_VERSION,
        tabs: seq![
            TabModel {
                id: default_tab_id(),
                left_text: m.left_text,
                right_text: m.right_text,
                recipe_path: m.recipe_path,
                model: m.model,
                params: m.params,
                project_path: m.project_path,
                updated_at: m.updated_at,
            },
        ],
        active_tab: Some(default_tab_id()),
    }
}

/// Upgrade an older flat document to the current shape. Total: it succeeds
/// for every older document.
pub fn from_v1(v1: WorkspaceV1) -> (r: WorkspaceV2)
    ensures
        r.model() == spec_from_v1(v1.model()),
{
    let tab = WorkspaceTab {
        id: String::from_str("default"),
        left_text: v1.left_text,
        right_text: v1.right_text,
        recipe_path: v1.recipe_path,
        model: v1.model,
        params: v1.params,
        project_path: v1.project_path,
        updated_at: v1.updated_at,
    };
    let mut tabs: Vec<WorkspaceTab> = Vec::new();
    tabs.push(tab);
    let r = WorkspaceV2 {
        version: CURRENT_VERSION,
        tabs,
        active_tab: Some(String::from_str("default")),
    };
    proof {
        lemma_tabs_model(r.tabs@);
        assert(tabs_model(r.tabs@) =~= seq![r.tabs@[0].model()]);
        assert(r.model() =~= spec_from_v1(v1.model()));
    }
    r
}

/// Whether some tab bears `id`.
pub open spec fn has_tab(tabs: Seq<TabModel>, id: Seq<char>) -> bool {
    exists|i: int| 0 <= i < tabs.len() && #[trigger] tabs[i].id == id
}

/// The first index whose tab bears `id` (the list's length when none does).
pub open spec fn first_tab_index(tabs: Seq<TabModel>, id: Seq<char>) -> int
    decreases tabs.len(),
{
    if tabs.len() == 0 {
        0
    } else if tabs[0].id == id {
        0
    } else {
        1 + first_tab_index(tabs.drop_first(), id)
    }
}

/// When some tab bears `id`, `first_tab_index` finds the first one.
pub proof fn lemma_first_tab_index(tabs: Seq<TabModel>, id: Seq<char>)
    requires
        has_tab(tabs, id),
    ensures
        0 <= first_tab_index(tabs, id) < tabs.len(),
        tabs[first_tab_index(tabs, id)].id == id,
        forall|j: int| 0 <= j < first_tab_index(tabs, id) ==> tabs[j].id != id,
    decreases tabs.len(),
{
    if tabs.len() > 0 && tabs[0].id != id {
        let rest = tabs.drop_first();
        assert(has_tab(rest, id)) by {
            let w = choose|i: int| 0 <= i < tabs.len() && #[trigger] tabs[i].id == id;
            assert(rest[w - 1] == tabs[w]);
        }
        lemma_first_tab_index(rest, id);
        assert forall|j: int| 0 <= j < first_tab_index(tabs, id) implies tabs[j].id != id by {
            if j > 0 {
                assert(rest[j - 1] == tabs[j]);
            }
        }
    }
}

/// The index of the tab that a projection to the older shape uses: the
/// first tab whose id is the recorded active id, or the first tab when the
/// id is absent or stale.
pub open spec fn spec_active_index(m: V2Model) -> int {
    match m.active_tab {
        Some(id) => if has_tab(m.tabs, id) {
            first_tab_index(m.tabs, id)
        } else {
            0
        },
        None => 0,
    }
}

/// What projecting back down yields: the chosen tab as a flat record under
/// the older version tag, or nothing when there are no tabs.
pub open spec fn spec_project_to_v1(m: V2Model) -> Option<V1Model> {
    if m.tabs.len() == 0 {
        None
    } else {
        let t = m.tabs[spec_active_index(m)];
        Some(
            V1Model {
                version: 1,
                left_text: t.left_text,
                right_text: t.right_text,
                recipe_path: t.recipe_path,
                model: t.model,
                params: t.params,
                project_path: t.project_path,
                updated_at: t.updated_at,
            },
        )
    }
}

/// Project the active tab of a current document back to the older flat
/// shape: the tab matching the recorded active id, falling back to the
/// first tab when that id is absent or stale; nothing when there are no
/// tabs.
#[verifier::loop_isolation(false)]
pub fn project_to_v1(doc: &WorkspaceV2) -> (r: Option<WorkspaceV1>)
    ensures
        (match r {
            Some(v1) => Some(v1.model()),
            None => None,
        }) == spec_project_to_v1(doc.model()),
{
    proof {
        lemma_tabs_model(doc.tabs@);
    }
    if doc.tabs.len() == 0 {
        return None;
    }
    let ghost m = doc.model();
    let mut idx: usize = 0;
    match &doc.active_tab {
        Some(id) => {
            let n = doc.tabs.len();
            let mut i: usize = 0;
            let mut found = false;
            while i < n && !found
                invariant
                    i <= n,
                    !found ==> forall|j: int| 0 <= j < i ==> m.tabs[j].id != id@,
                    found ==> 0 <= idx < n && m.tabs[idx as int].id == id@
                        && forall|j: int| 0 <= j < idx ==> m.tabs[j].id != id@,
                decreases n - i + (if found { 0int } else { 1int }),
            {
                if crate::text::str_eq(doc.tabs[i].id.as_str(), id.as_str()) {
                    idx = i;
                    found = true;
                } else {
                    i = i + 1;
                }
            }
            if !found {
                idx = 0;
                proof {
                    assert(!has_tab(m.tabs, id@));
                    assert(spec_active_index(m) == 0);
                }
            } else {
                proof {
                    assert(has_tab(m.tabs, id@));
                    lemma_first_tab_index(m.tabs, id@);
                    assert(idx as int == first_tab_index(m.tabs, id@)) by {
                        let f = first_tab_index(m.tabs, id@);
                        assert(!(f < idx as int));
                        assert(!((idx as int) < f));
                    }
                }
            }
        },
        None => {
            proof {
                assert(spec_active_index(m) == 0);
            }
        },
    }
    let t = &doc.tabs[idx];
    let r = WorkspaceV1 {
        version: 1,
        left_text: t.left_text.clone(),
        right_text: t.right_text.clone(),
        recipe_path: t.recipe_path.clone(),
        model: t.model.clone(),
        params: t.params.duplicate(),
        project_path: match &t.project_path {
            Some(p) => Some(p.clone()),
            None => None,
        },
        updated_at: t.updated_at.clone(),
    };
    proof {
        assert(idx as int == spec_active_index(m));
        match spec_project_to_v1(m) {
            Some(p) => {
                assert(r.model() =~= p);
            },
            None => {
                assert(false);
            },
        }
    }
    Some(r)
}

/// Migrating an older flat document up and projecting the active tab back
/// down returns the original record, field for field, for every older
/// document bearing the older version tag.
pub proof fn lemma_v1_round_trip(m: V1Model)
    requires
        m.version == 1,
    ensures
        spec_project_to_v1(spec_from_v1(m)) == Some(m),
{
    let up = spec_from_v1(m);
    assert(up.tabs[0].id == default_tab_id());
    assert(has_tab(up.tabs, default_tab_id()));
    assert(spec_active_index(up) == 0) by {
        lemma_first_tab_index(up.tabs, default_tab_id());
    }
    match spec_project_to_v1(up) {
        Some(p) => {
            assert(p =~= m);
        },
        None => {
            assert(false);
        },
    }
}

// ---------------------------------------------------------------------------
// The document codec: between documents and the JSON-equivalent tree.
// ---------------------------------------------------------------------------

/// Whether `j` is a string value.
pub open spec fn is_str(j: JsonModel) -> bool {
    j matches JsonModel::Str(_)
}

/// The characters of a string value (empty elsewhere).
pub open spec fn str_of(j: JsonModel) -> Seq<char> {
    match j {
        JsonModel::Str(s) => s,
        _ => Seq::empty(),
    }
}

/// Whether `j` encodes an optional string: a string or null.
pub open spec fn opt_str_ok(j: JsonModel) -> bool {
    j matches JsonModel::Str(_) || j matches JsonModel::Null
}

/// The optional string encoded by `j`.
pub open spec fn opt_str_of(j: JsonModel) -> Option<Seq<char>> {
    match j {
        JsonModel::Str(s) => Some(s),
        _ => None,
    }
}

/// The value that encodes an optional string: the string, or null.
pub open spec fn spec_encode_opt_str(o: Option<Seq<char>>) -> JsonModel {
    match o {
        Some(s) => JsonModel::Str(s),
        None => JsonModel::Null,
    }
}

/// The object fields that write a tab.
pub open spec fn spec_tab_fields(t: TabModel) -> Seq<(Seq<char>, JsonModel)> {
    seq![
        ("id"@, JsonModel::Str(t.id)),
        ("left_text"@, JsonModel::Str(t.left_text)),
        ("right_text"@, JsonModel::Str(t.right_text)),
        ("recipe_path"@, JsonModel::Str(t.recipe_path)),
        ("model"@, JsonModel::Str(t.model)),
        ("params"@, t.params),
        ("project_path"@, spec_encode_opt_str(t.project_path)),
        ("updated_at"@, JsonModel::Str(t.updated_at)),
    ]
}

/// How a tab is written.
pub open spec fn spec_encode_tab(t: TabModel) -> JsonModel {
    JsonModel::Obj(spec_tab_fields(t))
}

/// How a tab list is written.
pub open spec fn spec_encode_tabs(ts: Seq<TabModel>) -> Seq<JsonModel>
    decreases ts,
{
    if ts.len() == 0 {
        Seq::empty()
    } else {
        seq![spec_encode_tab(ts[0])] + spec_encode_tabs(ts.drop_first())
    }
}

/// How a current document is written.
pub open spec fn spec_encode_v2(m: V2Model) -> JsonModel {
    JsonModel::Obj(
        seq![
            ("version"@, JsonModel::Num(dec_str(m.version as nat))),
            ("tabs"@, JsonModel::Arr(spec_encode_tabs(m.tabs))),
            ("active_tab"@, spec_encode_opt_str(m.active_tab)),
        ],
    )
}

/// Whether an object has the shape of a written tab: every record field
/// present, the texts as strings, the project path a string or null.
pub open spec fn tab_shape_ok(fm: Seq<(Seq<char>, JsonModel)>) -> bool {
    &&& is_str(lookup(fm, "id"@))
    &&& is_str(lookup(fm, "left_text"@))
    &&& is_str(lookup(fm, "right_text"@))
    &&& is_str(lookup(fm, "recipe_path"@))
    &&& is_str(lookup(fm, "model"@))
    &&& has_key(fm, "params"@)
    &&& has_key(fm, "project_path"@)
    &&& opt_str_ok(lookup(fm, "project_path"@))
    &&& is_str(lookup(fm, "updated_at"@))
}

/// The tab read from a well-shaped object.
pub open spec fn tab_of(fm: Seq<(Seq<char>, JsonModel)>) -> TabModel {
    TabModel {
        id: str_of(lookup(fm, "id"@)),
        left_text: str_of(lookup(fm, "left_text"@)),
        right_text: str_of(lookup(fm, "right_text"@)),
        recipe_path: str_of(lookup(fm, "recipe_path"@)),
        model: str_of(lookup(fm, "model"@)),
        params: lookup(fm, "params"@),
        project_path: opt_str_of(lookup(fm, "project_path"@)),
        updated_at: str_of(lookup(fm, "updated_at"@)),
    }
}

/// What reading a tab yields.
pub open spec fn spec_decode_tab(j: JsonModel) -> Option<TabModel> {
    match j {
        JsonModel::Obj(fm) => if tab_shape_ok(fm) {
            Some(tab_of(fm))
        } else {
            None
        },
        _ => None,
    }
}

/// What reading a tab list yields: every entry must read as a tab.
pub open spec fn spec_decode_tabs(items: Seq<JsonModel>) -> Option<Seq<TabModel>>
    decreases items.len(),
{
    if items.len() == 0 {
        Some(Seq::empty())
    } else {
        match (spec_decode_tab(items[0]), spec_decode_tabs(items.drop_first())) {
            (Some(t), Some(rest)) => Some(seq![t] + rest),
            _ => None,
        }
    }
}

/// Reading a tab list succeeds exactly when every entry reads as a tab, and
/// then reads them in order.
pub proof fn lemma_spec_decode_tabs(items: Seq<JsonModel>)
    ensures
        (spec_decode_tabs(items) is Some) <==> (forall|i: int|
            0 <= i < items.len() ==> spec_decode_tab(#[trigger] items[i]) is Some),
        spec_decode_tabs(items) matches Some(ts) ==> ts.len() == items.len() && forall|i: int|
            0 <= i < items.len() ==> Some(ts[i]) == spec_decode_tab(#[trigger] items[i]),
    decreases items.len(),
{
    if items.len() > 0 {
        lemma_spec_decode_tabs(items.drop_first());
        assert forall|i: int|
            0 <= i < items.len() && (spec_decode_tabs(items) is Some) implies spec_decode_tab(
            #[trigger] items[i],
        ) is Some by {
            if i > 0 {
                assert(items.drop_first()[i - 1] == items[i]);
            }
        }
        if forall|i: int| 0 <= i < items.len() ==> spec_decode_tab(#[trigger] items[i]) is Some {
            assert forall|i: int| 0 <= i < items.drop_first().len() implies spec_decode_tab(
                #[trigger] items.drop_first()[i],
            ) is Some by {
                assert(items.drop_first()[i] == items[i + 1]);
            }
        }
        match spec_decode_tabs(items) {
            Some(ts) => {
                assert forall|i: int| 0 <= i < items.len() implies Some(ts[i]) == spec_decode_tab(
                    #[trigger] items[i],
                ) by {
                    if i > 0 {
                        assert(items.drop_first()[i - 1] == items[i]);
                        match spec_decode_tabs(items.drop_first()) {
                            Some(rest) => {
                                assert(ts[i] == rest[i - 1]);
                            },
                            None => {},
                        }
                    }
                }
            },
            None => {},
        }
    }
}

/// The version tag read from an object: the written number, `0` when the
/// tag is missing, nothing when it is unreadable.
pub open spec fn spec_version_of(fm: Seq<(Seq<char>, JsonModel)>) -> Option<u32> {
    if !has_key(fm, "version"@) {
        Some(0u32)
    } else {
        match lookup(fm, "version"@) {
            JsonModel::Num(s) => spec_parse_u32(s),
            _ => None,
        }
    }
}

/// The outcome of reading a persisted document.
#[derive(Debug, PartialEq, Eq)]
pub enum DocumentRead {
    /// The document is in the current shape.
    Current(WorkspaceV2),
    /// The document is in the known older shape and awaits migration.
    Legacy(WorkspaceV1),
    /// The document matches no known schema.
    Unreadable,
}

/// Mathematical shape of a `DocumentRead`.
#[verifier::ext_equal]
pub enum DocModel {
    Current(V2Model),
    Legacy(V1Model),
    Unreadable,
}

impl DocumentRead {
    /// The outcome as a mathematical record.
    pub open spec fn model(self) -> DocModel {
        match self {
            DocumentRead::Current(d) => DocModel::Current(d.model()),
            DocumentRead::Legacy(d) => DocModel::Legacy(d.model()),
            DocumentRead::Unreadable => DocModel::Unreadable,
        }
    }
}

/// Whether an object has the shape of the older flat document.
pub open spec fn v1_shape_ok(fm: Seq<(Seq<char>, JsonModel)>) -> bool {
    &&& is_str(lookup(fm, "left_text"@))
    &&& is_str(lookup(fm, "right_text"@))
    &&& is_str(lookup(fm, "recipe_path"@))
    &&& is_str(lookup(fm, "model"@))
    &&& has_key(fm, "params"@)
    &&& has_key(fm, "project_path"@)
    &&& opt_str_ok(lookup(fm, "project_path"@))
    &&& is_str(lookup(fm, "updated_at"@))
}

/// The older flat document read from a well-shaped object, under the
/// version tag it was read with.
pub open spec fn v1_of(fm: Seq<(Seq<char>, JsonModel)>, version: u32) -> V1Model {
    V1Model {
        version: version,
        left_text: str_of(lookup(fm, "left_text"@)),
        right_text: str_of(lookup(fm, "right_text"@)),
        recipe_path: str_of(lookup(fm, "recipe_path"@)),
        model: str_of(lookup(fm, "model"@)),
        params: lookup(fm, "params"@),
        project_path: opt_str_of(lookup(fm, "project_path"@)),
        updated_at: str_of(lookup(fm, "updated_at"@)),
    }
}

/// `spec_encode_tabs` maps the list tab by tab.
pub proof fn lemma_spec_encode_tabs(ts: Seq<TabModel>)
    ensures
        spec_encode_tabs(ts).len() == ts.len(),
        forall|i: int|
            0 <= i < ts.len() ==> #[trigger] spec_encode_tabs(ts)[i] == spec_encode_tab(ts[i]),
    decreases ts,
{
    if ts.len() > 0 {
        lemma_spec_encode_tabs(ts.drop_first());
        assert forall|i: int| 0 <= i < ts.len() implies #[trigger] spec_encode_tabs(ts)[i]
            == spec_encode_tab(ts[i]) by {
            if i > 0 {
                assert(ts.drop_first()[i - 1] == ts[i]);
            }
        }
    }
}

/// Write one tab as an object.
pub fn encode_tab(t: &WorkspaceTab) -> (r: JsonValue)
    ensures
        r.model() == spec_encode_tab(t.model()),
{
    let mut fields: Vec<(String, JsonValue)> = Vec::new();
    fields.push((String::from_str("id"), JsonValue::Str(t.id.clone())));
    fields.push((String::from_str("left_text"), JsonValue::Str(t.left_text.clone())));
    fields.push((String::from_str("right_text"), JsonValue::Str(t.right_text.clone())));
    fields.push((String::from_str("recipe_path"), JsonValue::Str(t.recipe_path.clone())));
    fields.push((String::from_str("model"), JsonValue::Str(t.model.clone())));
    fields.push((String::from_str("params"), t.params.duplicate()));
    fields.push(
        (
            String::from_str("project_path"),
            match &t.project_path {
                Some(p) => JsonValue::Str(p.clone()),
                None => JsonValue::Null,
            },
        ),
    );
    fields.push((String::from_str("updated_at"), JsonValue::Str(t.updated_at.clone())));
    proof {
        crate::json::lemma_fields_model(fields@);
        assert(fields_model(fields@) =~= spec_tab_fields(t.model()));
    }
    JsonValue::Obj(fields)
}

/// Write a current document as an object.
#[verifier::loop_isolation(false)]
pub fn encode_v2(doc: &WorkspaceV2) -> (r: JsonValue)
    ensures
        r.model() == spec_encode_v2(doc.model()),
{
    let ghost m = doc.model();
    proof {
        lemma_tabs_model(doc.tabs@);
        lemma_spec_encode_tabs(m.tabs);
    }
    let version_text = crate::number::u32_to_dec(doc.version);
    let n = doc.tabs.len();
    let mut items: Vec<JsonValue> = Vec::new();
    let mut i: usize = 0;
    while i < n
        invariant
            i <= n,
            items@.len() == i,
            forall|j: int|
                0 <= j < i ==> (#[trigger] items@[j]).model() == spec_encode_tab(m.tabs[j]),
        decreases n - i,
    {
        let item = encode_tab(&doc.tabs[i]);
        items.push(item);
        i = i + 1;
    }
    proof {
        crate::json::lemma_items_model(items@);
        assert(items_model(items@) =~= spec_encode_tabs(m.tabs));
    }
    let mut fields: Vec<(String, JsonValue)> = Vec::new();
    fields.push((String::from_str("version"), JsonValue::Num(version_text)));
    fields.push((String::from_str("tabs"), JsonValue::Arr(items)));
    fields.push(
        (
            String::from_str("active_tab"),
            match &doc.active_tab {
                Some(id) => JsonValue::Str(id.clone()),
                None => JsonValue::Null,
            },
        ),
    );
    proof {
        crate::json::lemma_fields_model(fields@);
        assert(fields_model(fields@) =~= seq![
            ("version"@, JsonModel::Num(dec_str(m.version as nat))),
            ("tabs"@, JsonModel::Arr(spec_encode_tabs(m.tabs))),
            ("active_tab"@, spec_encode_opt_str(m.active_tab)),
        ]);
    }
    JsonValue::Obj(fields)
}

/// Read a required string field: the field's characters when it is present
/// and a string, nothing otherwise.
fn req_str(j: &JsonValue, key: &str) -> (r: Option<String>)
    ensures
        match j.model() {
            JsonModel::Obj(fm) => match r {
                Some(s) => is_str(lookup(fm, key@)) && s@ == str_of(lookup(fm, key@)),
                None => !is_str(lookup(fm, key@)),
            },
            _ => r is None,
        },
{
    match j.get(key) {
        Some(v) => match v.as_str() {
            Some(s) => Some(s.clone()),
            None => None,
        },
        None => {
            proof {
                match j.model() {
                    JsonModel::Obj(fm) => {
                        crate::json::lemma_lookup_absent(fm, key@);
                    },
                    _ => {},
                }
            }
            None
        },
    }
}

/// Read an optional string field: present and null gives `Some(None)`,
/// present and a string gives the string, absent or any other shape gives
/// nothing.
fn opt_str_field(j: &JsonValue, key: &str) -> (r: Option<Option<String>>)
    ensures
        match j.model() {
            JsonModel::Obj(fm) => match r {
                Some(o) => has_key(fm, key@) && opt_str_ok(lookup(fm, key@)) && opt_model(o)
                    == opt_str_of(lookup(fm, key@)),
                None => !has_key(fm, key@) || !opt_str_ok(lookup(fm, key@)),
            },
            _ => r is None,
        },
{
    match j.get(key) {
        Some(v) => match v {
            JsonValue::Null => Some(None),
            JsonValue::Str(s) => Some(Some(s.clone())),
            _ => None,
        },
        None => None,
    }
}

/// Read one tab from an object.
pub fn decode_tab(j: &JsonValue) -> (r: Option<WorkspaceTab>)
    ensures
        (match r {
            Some(t) => Some(t.model()),
            None => None::<TabModel>,
        }) == spec_decode_tab(j.model()),
{
    let id = match req_str(j, "id") {
        Some(s) => s,
        None => {
            return None;
        },
    };
    let left_text = match req_str(j, "left_text") {
        Some(s) => s,
        None => {
            return None;
        },
    };
    let right_text = match req_str(j, "right_text") {
        Some(s) => s,
        None => {
            return None;
        },
    };
    let recipe_path = match req_str(j, "recipe_path") {
        Some(s) => s,
        None => {
            return None;
        },
    };
    let model = match req_str(j, "model") {
        Some(s) => s,
        None => {
            return None;
        },
    };
    let params = match j.get("params") {
        Some(v) => v.duplicate(),
        None => {
            return None;
        },
    };
    let project_path = match opt_str_field(j, "project_path") {
        Some(o) => o,
        None => {
            return None;
        },
    };
    let updated_at = match req_str(j, "updated_at") {
        Some(s) => s,
        None => {
            return None;
        },
    };
    let t = WorkspaceTab {
        id,
        left_text,
        right_text,
        recipe_path,
        model,
        params,
        project_path,
        updated_at,
    };
    proof {
        match j.model() {
            JsonModel::Obj(fm) => {
                assert(tab_shape_ok(fm));
                assert(t.model() =~= tab_of(fm));
            },
            _ => {
                assert(false);
            },
        }
    }
    Some(t)
}

/// What reading a persisted document yields. The current shape is tried
/// first (the presence of the tab list marks it), then the known older
/// shape; a version tag newer than the current schema is never guessed at.
/// A missing or too-low version tag on a current-shaped document is
/// back-filled to the current version.
pub open spec fn spec_decode_document(j: JsonModel) -> DocModel {
    match j {
        JsonModel::Obj(fm) => match spec_version_of(fm) {
            Some(v) => if v > CURRENT_VERSION {
                DocModel::Unreadable
            } else if has_key(fm, "tabs"@) {
                match lookup(fm, "tabs"@) {
                    JsonModel::Arr(items) => match spec_decode_tabs(items) {
                        Some(ts) => if !has_key(fm, "active_tab"@) || opt_str_ok(
                            lookup(fm, "active_tab"@),
                        ) {
                            DocModel::Current(
                                V2Model {
                                    version: CURRENT_VERSION,
                                    tabs: ts,
                                    active_tab: if has_key(fm, "active_tab"@) {
                                        opt_str_of(lookup(fm, "active_tab"@))
                                    } else {
                                        None
                                    },
                                },
                            )
                        } else {
                            DocModel::Unreadable
                        },
                        None => DocModel::Unreadable,
                    },
                    _ => DocModel::Unreadable,
                }
            } else if v1_shape_ok(fm) {
                DocModel::Legacy(v1_of(fm, v))
            } else {
                DocModel::Unreadable
            },
            None => DocModel::Unreadable,
        },
        _ => DocModel::Unreadable,
    }
}

/// Read a persisted document in whichever known schema it is written.
#[verifier::loop_isolation(false)]
pub fn decode_document(j: &JsonValue) -> (r: DocumentRead)
    ensures
        r.model() == spec_decode_document(j.model()),
{
    let is_obj = match j {
        JsonValue::Obj(_) => true,
        _ => false,
    };
    if !is_obj {
        return DocumentRead::Unreadable;
    }
    let ghost fm = match j.model() {
        JsonModel::Obj(f) => f,
        _ => arbitrary(),
    };
    let version: u32 = match j.get("version") {
        None => 0,
        Some(v) => match v {
            JsonValue::Num(s) => match crate::number::parse_dec_u32(s.as_str()) {
                Some(n) => n,
                None => {
                    return DocumentRead::Unreadable;
                },
            },
            _ => {
                return DocumentRead::Unreadable;
            },
        },
    };
    proof {
        assert(spec_version_of(fm) == Some(version));
    }
    if version > CURRENT_VERSION {
        return DocumentRead::Unreadable;
    }
    match j.get("tabs") {
        Some(tabs_value) => match tabs_value {
            JsonValue::Arr(items) => {
                let ghost im = items_model(items@);
                proof {
                    crate::json::lemma_items_model(items@);
                    lemma_spec_decode_tabs(im);
                }
                let n = items.len();
                let mut tabs: Vec<WorkspaceTab> = Vec::new();
                let mut i: usize = 0;
                while i < n
                    invariant
                        i <= n,
                        tabs@.len() == i,
                        forall|j2: int|
                            0 <= j2 < i ==> Some((#[trigger] tabs@[j2]).model())
                                == spec_decode_tab(im[j2]),
                    decreases n - i,
                {
                    match decode_tab(&items[i]) {
                        Some(t) => {
                            tabs.push(t);
                        },
                        None => {
                            proof {
                                assert(spec_decode_tab(im[i as int]) is None);
                                assert(spec_decode_tabs(im) is None);
                            }
                            return DocumentRead::Unreadable;
                        },
                    }
                    i = i + 1;
                }
                proof {
                    lemma_tabs_model(tabs@);
                    assert forall|i2: int| 0 <= i2 < im.len() implies spec_decode_tab(
                        #[trigger] im[i2],
                    ) is Some by {
                        assert(Some(tabs@[i2].model()) == spec_decode_tab(im[i2]));
                    }
                    assert(spec_decode_tabs(im) is Some);
                    match spec_decode_tabs(im) {
                        Some(ts) => {
                            assert(tabs_model(tabs@) =~= ts);
                        },
                        None => {
                            assert(false);
                        },
                    }
                }
                let active_tab = match opt_str_field(j, "active_tab") {
                    Some(o) => o,
                    None => {
                        if j.get("active_tab").is_none() {
                            None
                        } else {
                            return DocumentRead::Unreadable;
                        }
                    },
                };
                let d = WorkspaceV2 { version: CURRENT_VERSION, tabs, active_tab };
                proof {
                    match spec_decode_document(j.model()) {
                        DocModel::Current(dm) => {
                            assert(d.model() =~= dm);
                        },
                        _ => {
                            assert(false);
                        },
                    }
                }
                DocumentRead::Current(d)
            },
            _ => DocumentRead::Unreadable,
        },
        None => {
            proof {
                crate::json::lemma_lookup_absent(fm, "tabs"@);
            }
            let left_text = match req_str(j, "left_text") {
                Some(s) => s,
                None => {
                    return DocumentRead::Unreadable;
                },
            };
            let right_text = match req_str(j, "right_text") {
                Some(s) => s,
                None => {
                    return DocumentRead::Unreadable;
                },
            };
            let recipe_path = match req_str(j, "recipe_path") {
                Some(s) => s,
                None => {
                    return DocumentRead::Unreadable;
                },
            };
            let model = match req_str(j, "model") {
                Some(s) => s,
                None => {
                    return DocumentRead::Unreadable;
                },
            };
            let params = match j.get("params") {
                Some(v) => v.duplicate(),
                None => {
                    return DocumentRead::Unreadable;
                },
            };
            let project_path = match opt_str_field(j, "project_path") {
                Some(o) => o,
                None => {
                    return DocumentRead::Unreadable;
                },
            };
            let updated_at = match req_str(j, "updated_at") {
                Some(s) => s,
                None => {
                    return DocumentRead::Unreadable;
                },
            };
            let d = WorkspaceV1 {
                version,
                left_text,
                right_text,
                recipe_path,
                model,
                params,
                project_path,
                updated_at,
            };
            proof {
                assert(v1_shape_ok(fm));
                assert(d.model() =~= v1_of(fm, version));
            }
            DocumentRead::Legacy(d)
        },
    }
}

/// The outcome of loading the persisted state.
#[derive(Debug, PartialEq, Eq)]
pub enum LoadResult {
    /// No document exists yet.
    NoDocument,
    /// A document was read; `migrated` says it was upgraded from an older
    /// schema in memory and should be persisted back.
    Loaded { doc: WorkspaceV2, migrated: bool },
    /// A document exists but matches no known schema.
    Unreadable,
}

/// Mathematical shape of a `LoadResult`.
#[verifier::ext_equal]
pub enum LoadModel {
    NoDocument,
    Loaded { doc: V2Model, migrated: bool },
    Unreadable,
}

impl LoadResult {
    /// The outcome as a mathematical record.
    pub open spec fn model(self) -> LoadModel {
        match self {
            LoadResult::NoDocument => LoadModel::NoDocument,
            LoadResult::Loaded { doc, migrated } => LoadModel::Loaded {
                doc: doc.model(),
                migrated,
            },
            LoadResult::Unreadable => LoadModel::Unreadable,
        }
    }
}

/// What loading yields: no document when none exists; the document itself
/// when it is in the current shape; the upgraded document, marked for
/// persisting back, when it is in the known older shape; a parse failure
/// otherwise.
pub open spec fn spec_load_document(file: Option<JsonModel>) -> LoadModel {
    match file {
        None => LoadModel::NoDocument,
        Some(j) => match spec_decode_document(j) {
            DocModel::Current(m) => LoadModel::Loaded { doc: m, migrated: false },
            DocModel::Legacy(m) => LoadModel::Loaded { doc: spec_from_v1(m), migrated: true },
            DocModel::Unreadable => LoadModel::Unreadable,
        },
    }
}

/// Load the persisted state from the parsed document, upgrading an older
/// schema in memory; `migrated` in the result says the caller should
/// persist the upgraded form back with the backup-safe write.
pub fn load_document(file: Option<&JsonValue>) -> (r: LoadResult)
    ensures
        r.model() == spec_load_document(
            match file {
                Some(j) => Some(j.model()),
                None => None,
            },
        ),
{
    match file {
        None => LoadResult::NoDocument,
        Some(j) => match decode_document(j) {
            DocumentRead::Current(d) => LoadResult::Loaded { doc: d, migrated: false },
            DocumentRead::Legacy(d) => LoadResult::Loaded { doc: from_v1(d), migrated: true },
            DocumentRead::Unreadable => LoadResult::Unreadable,
        },
    }
}

/// Reading back a written tab returns the tab.
pub proof fn lemma_tab_round_trip(t: TabModel)
    ensures
        spec_decode_tab(spec_encode_tab(t)) == Some(t),
{
    reveal_strlit("id");
    reveal_strlit("left_text");
    reveal_strlit("right_text");
    reveal_strlit("recipe_path");
    reveal_strlit("model");
    reveal_strlit("params");
    reveal_strlit("project_path");
    reveal_strlit("updated_at");
    let fm = spec_tab_fields(t);
    assert(fm[0].0 == "id"@);
    assert(fm[1].0 == "left_text"@);
    assert(fm[2].0 == "right_text"@);
    assert(fm[3].0 == "recipe_path"@);
    assert(fm[4].0 == "model"@);
    assert(fm[5].0 == "params"@);
    assert(fm[6].0 == "project_path"@);
    assert(fm[7].0 == "updated_at"@);
    assert("right_text"@[0] == 'r');
    assert("updated_at"@[0] == 'u');
    assert("right_text"@ != "updated_at"@);
    crate::json::lemma_lookup_at(fm, "id"@, 0);
    crate::json::lemma_lookup_at(fm, "left_text"@, 1);
    crate::json::lemma_lookup_at(fm, "right_text"@, 2);
    crate::json::lemma_lookup_at(fm, "recipe_path"@, 3);
    crate::json::lemma_lookup_at(fm, "model"@, 4);
    crate::json::lemma_lookup_at(fm, "params"@, 5);
    crate::json::lemma_lookup_at(fm, "project_path"@, 6);
    crate::json::lemma_lookup_at(fm, "updated_at"@, 7);
    match spec_decode_tab(spec_encode_tab(t)) {
        Some(d) => {
            assert(d =~= t);
        },
        None => {
            assert(false);
        },
    }
}

/// Reading back a written tab list returns the list.
pub proof fn lemma_tabs_round_trip(ts: Seq<TabModel>)
    ensures
        spec_decode_tabs(spec_encode_tabs(ts)) == Some(ts),
    decreases ts,
{
    if ts.len() == 0 {
        assert(spec_decode_tabs(spec_encode_tabs(ts)) == Some(Seq::<TabModel>::empty()));
        assert(ts =~= Seq::<TabModel>::empty());
    } else {
        lemma_tab_round_trip(ts[0]);
        lemma_tabs_round_trip(ts.drop_first());
        let es = spec_encode_tabs(ts);
        assert(es[0] == spec_encode_tab(ts[0]));
        assert(es.drop_first() =~= spec_encode_tabs(ts.drop_first()));
        assert(seq![ts[0]] + ts.drop_first() =~= ts);
    }
}

/// Reading back a written current document returns the document: what
/// `save` writes, an immediately following `load` returns unchanged.
pub proof fn lemma_document_round_trip(m: V2Model)
    requires
        m.version == CURRENT_VERSION,
    ensures
        spec_decode_document(spec_encode_v2(m)) == DocModel::Current(m),
{
    reveal_strlit("version");
    reveal_strlit("tabs");
    reveal_strlit("active_tab");
    let fm = seq![
        ("version"@, JsonModel::Num(dec_str(m.version as nat))),
        ("tabs"@, JsonModel::Arr(spec_encode_tabs(m.tabs))),
        ("active_tab"@, spec_encode_opt_str(m.active_tab)),
    ];
    assert(spec_encode_v2(m) == JsonModel::Obj(fm));
    assert("version"@.len() == 7);
    assert("tabs"@.len() == 4);
    assert("active_tab"@.len() == 10);
    assert("version"@ != "tabs"@);
    assert("version"@ != "active_tab"@);
    assert("tabs"@ != "active_tab"@);
    assert(fm[0].0 == "version"@);
    assert(fm[1].0 == "tabs"@);
    assert(fm[2].0 == "active_tab"@);
    crate::json::lemma_lookup_at(fm, "version"@, 0);
    crate::json::lemma_lookup_at(fm, "tabs"@, 1);
    crate::json::lemma_lookup_at(fm, "active_tab"@, 2);
    crate::number::lemma_dec_str_parses(m.version);
    assert(spec_version_of(fm) == Some(m.version));
    lemma_tabs_round_trip(m.tabs);
    match spec_decode_document(spec_encode_v2(m)) {
        DocModel::Current(d) => {
            assert(d =~= m);
        },
        _ => {
            assert(false);
        },
    }
}

} // verus!
