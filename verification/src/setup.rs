//! Readiness check for the local model server: what its tag listing says
//! about the server and the models it holds.
//!
//! The caller performs the network request and parses the response body; it
//! hands the listed model tags (or the fact that the server could not be
//! reached or understood) to the decision here.

use vstd::prelude::*;

verus! {

/// The server's readiness.
#[derive(Debug, Copy, Clone, PartialEq, Eq, Structural)]
pub enum SetupStatus {
    /// The server answered and holds a usable model.
    Ready,
    /// The server could not be reached or its answer not understood.
    ServerUnavailable,
    /// The server answered but the model looked for (or any model at all)
    /// is missing.
    ModelMissing,
}

/// The verdict of a readiness check, with guidance for the user.
#[derive(Debug, Clone, PartialEq, Eq)]
pub struct SetupCheckOutcome {
    pub status: SetupStatus,
    pub guidance: String,
}

/// The guidance text attached to each status.
pub open spec fn guidance_of(status: SetupStatus) -> Seq<char> {
    match status {
        SetupStatus::Ready => "Ollama サーバーは利用可能です。"@,
        SetupStatus::ServerUnavailable => "Ollama サーバーに接続できません。サービスを起動してください。"@,
        SetupStatus::ModelMissing => "Ollama でモデルを pull してから再度お試しください。"@,
    }
}

impl SetupCheckOutcome {
    /// An outcome carrying `status` and the given guidance.
    pub fn new(status: SetupStatus, guidance: &str) -> (r: Self)
        ensures
            r.status == status,
            r.guidance@ == guidance@,
    {
        SetupCheckOutcome { status, guidance: String::from_str(guidance) }
    }

    /// The server is ready.
    pub fn ready() -> (r: Self)
        ensures
            r.status == SetupStatus::Ready,
            r.guidance@ == guidance_of(SetupStatus::Ready),
    {
        Self::new(SetupStatus::Ready, "Ollama サーバーは利用可能です。")
    }

    /// The server is unavailable.
    pub fn server_unavailable() -> (r: Self)
        ensures
            r.status == SetupStatus::ServerUnavailable,
            r.guidance@ == guidance_of(SetupStatus::ServerUnavailable),
    {
        Self::new(
            SetupStatus::ServerUnavailable,
            "Ollama サーバーに接続できません。サービスを起動してください。",
        )
    }

    /// The model looked for is missing.
    pub fn model_missing() -> (r: Self)
        ensures
            r.status == SetupStatus::ModelMissing,
            r.guidance@ == guidance_of(SetupStatus::ModelMissing),
    {
        Self::new(SetupStatus::ModelMissing, "Ollama でモデルを pull してから再度お試しください。")
    }
}

/// One entry of the server's tag listing; either field may name it.
#[derive(Debug, Clone, PartialEq, Eq)]
pub struct ModelTag {
    pub model: Option<String>,
    pub name: Option<String>,
}

/// Mathematical shape of a `ModelTag`.
pub struct TagModel {
    pub model: Option<Seq<char>>,
    pub name: Option<Seq<char>>,
}

impl ModelTag {
    /// The tag as a mathematical record.
    pub open spec fn model_rec(self) -> TagModel {
        TagModel {
            model: match self.model {
                Some(s) => Some(s@),
                None => None,
            },
            name: match self.name {
                Some(s) => Some(s@),
                None => None,
            },
        }
    }
}

/// The model of a tag list.
pub open spec fn tags_model(tags: Seq<ModelTag>) -> Seq<TagModel>
    decreases tags,
{
    if tags.len() == 0 {
        Seq::empty()
    } else {
        seq![tags[0].model_rec()] + tags_model(tags.drop_first())
    }
}

/// `tags_model` maps the list tag by tag.
pub proof fn lemma_tags_model(tags: Seq<ModelTag>)
    ensures
        tags_model(tags).len() == tags.len(),
        forall|i: int|
            0 <= i < tags.len() ==> #[trigger] tags_model(tags)[i] == tags[i].model_rec(),
    decreases tags,
{
    if tags.len() > 0 {
        lemma_tags_model(tags.drop_first());
        assert forall|i: int| 0 <= i < tags.len() implies #[trigger] tags_model(tags)[i]
            == tags[i].model_rec() by {
            if i > 0 {
                assert(tags.drop_first()[i - 1] == tags[i]);
            }
        }
    }
}

/// Whether a tag names any model at all.
pub open spec fn tag_named(t: TagModel) -> bool {
    t.model is Some || t.name is Some
}

/// Whether a tag names exactly `wanted`.
pub open spec fn tag_matches(t: TagModel, wanted: Seq<char>) -> bool {
    t.model == Some(wanted) || t.name == Some(wanted)
}

/// Whether any tag names a model.
pub open spec fn any_named(tags: Seq<TagModel>) -> bool {
    exists|i: int| 0 <= i < tags.len() && tag_named(#[trigger] tags[i])
}

/// Whether some tag names exactly `wanted`.
pub open spec fn has_model(tags: Seq<TagModel>, wanted: Seq<char>) -> bool {
    exists|i: int| 0 <= i < tags.len() && tag_matches(#[trigger] tags[i], wanted)
}

/// What the verdict on a successfully parsed tag listing is: a required
/// model that is not listed is missing; otherwise the server is ready when
/// anything is listed, and a model is missing when nothing is.
pub open spec fn spec_tags_status(tags: Seq<TagModel>, required: Option<Seq<char>>) -> SetupStatus {
    match required {
        Some(wanted) => if !has_model(tags, wanted) {
            SetupStatus::ModelMissing
        } else if any_named(tags) {
            SetupStatus::Ready
        } else {
            SetupStatus::ModelMissing
        },
        None => if any_named(tags) {
            SetupStatus::Ready
        } else {
            SetupStatus::ModelMissing
        },
    }
}

/// What the caller's request for the tag listing came back with.
pub enum TagsFetch {
    /// The server answered with a well-formed listing.
    Tags(Vec<ModelTag>),
    /// The server could not be reached, answered with a failure, or its
    /// body could not be read as a listing.
    Unavailable,
}

impl TagsFetch {
    /// The fetch outcome as a mathematical record.
    pub open spec fn model_rec(self) -> Option<Seq<TagModel>> {
        match self {
            TagsFetch::Tags(tags) => Some(tags_model(tags@)),
            TagsFetch::Unavailable => None,
        }
    }
}

/// The verdict on one readiness check: unavailable when the listing could
/// not be had, otherwise the verdict on the listing, with its guidance.
pub open spec fn spec_setup_status(
    fetch: Option<Seq<TagModel>>,
    required: Option<Seq<char>>,
) -> SetupStatus {
    match fetch {
        None => SetupStatus::ServerUnavailable,
        Some(tags) => spec_tags_status(tags, required),
    }
}

/// Decide the readiness of the model server from what the tag-listing
/// request returned and which model, if any, is required.
#[verifier::loop_isolation(false)]
pub fn check_ollama_setup_state(fetch: &TagsFetch, required: &Option<String>) -> (r: SetupCheckOutcome)
    ensures
        r.status == spec_setup_status(
            fetch.model_rec(),
            match required {
                Some(s) => Some(s@),
                None => None,
            },
        ),
        r.guidance@ == guidance_of(r.status),
{
    let tags = match fetch {
        TagsFetch::Unavailable => {
            return SetupCheckOutcome::server_unavailable();
        },
        TagsFetch::Tags(tags) => tags,
    };
    proof {
        lemma_tags_model(tags@);
    }
    let ghost tm = tags_model(tags@);
    let n = tags.len();
    let mut any_found = false;
    let mut required_found = false;
    let mut i: usize = 0;
    while i < n
        invariant
            i <= n,
            any_found == exists|j: int| 0 <= j < i && tag_named(#[trigger] tm[j]),
            required matches Some(w) ==> required_found == exists|j: int|
                0 <= j < i && tag_matches(#[trigger] tm[j], w@),
            required is None ==> !required_found,
        decreases n - i,
    {
        let t = &tags[i];
        if t.model.is_some() || t.name.is_some() {
            proof {
                assert(tag_named(tm[i as int]));
            }
            any_found = true;
        }
        if let Some(wanted) = required {
            let hit = (match &t.model {
                Some(s) => crate::text::str_eq(s.as_str(), wanted.as_str()),
                None => false,
            }) || (match &t.name {
                Some(s) => crate::text::str_eq(s.as_str(), wanted.as_str()),
                None => false,
            });
            if hit {
                proof {
                    assert(tag_matches(tm[i as int], wanted@));
                }
                required_found = true;
            }
        }
        i = i + 1;
    }
    if required.is_some() && !required_found {
        return SetupCheckOutcome::model_missing();
    }
    if any_found {
        SetupCheckOutcome::ready()
    } else {
        SetupCheckOutcome::model_missing()
    }
}

} // verus!
