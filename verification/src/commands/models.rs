//! Installing, choosing and deleting models: the rules, without the disk
//! and the network.

use vstd::prelude::*;
use crate::engine::ModelCapability;
use crate::hub::api::{download_address, download_url};
use crate::hub::registry::{CatalogModel, InstalledModel, ModelFile};
use crate::state::Settings;
use crate::text::{chars_of, same_text, string_of};

verus! {

/// The capability that a name stands for: `stt` or `tts`.
pub open spec fn capability_named(name: Seq<char>) -> Option<ModelCapability> {
    if name == "stt"@ {
        Some(ModelCapability::SpeechToText)
    } else if name == "tts"@ {
        Some(ModelCapability::TextToSpeech)
    } else {
        None
    }
}

/// Reads a capability from its name.
pub fn parse_capability(name: &str) -> (capability: Option<ModelCapability>)
    ensures
        capability == capability_named(name@),
{
    if same_text(name, "stt") {
        Some(ModelCapability::SpeechToText)
    } else if same_text(name, "tts") {
        Some(ModelCapability::TextToSpeech)
    } else {
        None
    }
}

/// The capability by which installed models are listed: an unknown name
/// lists the speech-to-text models.
pub fn listing_capability(name: &str) -> (capability: ModelCapability)
    ensures
        capability == (match capability_named(name@) {
            Some(c) => c,
            None => ModelCapability::SpeechToText,
        }),
{
    match parse_capability(name) {
        Some(c) => c,
        None => ModelCapability::SpeechToText,
    }
}

/// The directory that holds the models of a capability.
pub fn capability_dir(capability: ModelCapability) -> (dir: &'static str)
    ensures
        dir@ == (match capability {
            ModelCapability::SpeechToText => "stt"@,
            ModelCapability::TextToSpeech => "tts"@,
        }),
{
    match capability {
        ModelCapability::SpeechToText => "stt",
        ModelCapability::TextToSpeech => "tts",
    }
}

/// A model id as a directory name: every `/` becomes `--`.
pub open spec fn slug_of(id: Seq<char>) -> Seq<char>
    decreases id.len(),
{
    if id.len() == 0 {
        Seq::empty()
    } else if id.last() == '/' {
        slug_of(id.drop_last()) + seq!['-', '-']
    } else {
        slug_of(id.drop_last()).push(id.last())
    }
}

/// The name of the directory that holds a model.
pub fn model_slug(model_id: &str) -> (slug: String)
    ensures
        slug@ == slug_of(model_id@),
{
    let id: Vec<char> = chars_of(model_id);
    let mut out: Vec<char> = Vec::new();
    let mut i: usize = 0;
    assert(id@.take(0) =~= Seq::<char>::empty());
    while i < id.len()
        invariant
            i <= id@.len(),
            out@ == slug_of(id@.take(i as int)),
        decreases id@.len() - i,
    {
        assert(id@.take(i + 1).drop_last() =~= id@.take(i as int));
        let ghost before = out@;
        if id[i] == '/' {
            out.push('-');
            out.push('-');
            assert(out@ =~= before + seq!['-', '-']);
        } else {
            out.push(id[i]);
        }
        i = i + 1;
    }
    assert(id@.take(i as int) =~= id@);
    string_of(out.as_slice())
}

/// The sizes of the first `n` files, added up.
pub open spec fn size_sum(files: Seq<ModelFile>, n: int) -> int
    decreases n,
{
    if n <= 0 {
        0
    } else {
        size_sum(files, n - 1) + files[n - 1].size_bytes
    }
}

/// The size of all files of a model; `None` where it does not fit 64 bits.
pub fn total_size(files: &Vec<ModelFile>) -> (total: Option<u64>)
    ensures
        match total {
            Some(n) => n == size_sum(files@, files@.len() as int),
            None => size_sum(files@, files@.len() as int) > u64::MAX,
        },
{
    let mut total: u64 = 0;
    let mut i: usize = 0;
    while i < files.len()
        invariant
            i <= files@.len(),
            total == size_sum(files@, i as int),
        decreases files@.len() - i,
    {
        match total.checked_add(files[i].size_bytes) {
            Some(n) => {
                total = n;
            },
            None => {
                proof {
                    lemma_size_sum_grows(files@, i + 1, files@.len() as int);
                }
                return None;
            },
        }
        i = i + 1;
    }
    Some(total)
}

/// Adding more files does not make the sum smaller.
proof fn lemma_size_sum_grows(files: Seq<ModelFile>, n: int, m: int)
    requires
        0 <= n <= m,
    ensures
        size_sum(files, n) <= size_sum(files, m),
    decreases m - n,
{
    if n < m {
        lemma_size_sum_grows(files, n, m - 1);
    }
}

/// Index of the first model of the catalog with this id.
pub fn find_model(catalog: &Vec<CatalogModel>, model_id: &str) -> (found: Option<usize>)
    ensures
        match found {
            Some(i) => i < catalog@.len() && catalog@[i as int].id@ == model_id@ && forall|k: int|
                0 <= k < i ==> (#[trigger] catalog@[k]).id@ != model_id@,
            None => forall|k: int| 0 <= k < catalog@.len() ==> (#[trigger] catalog@[k]).id@
                != model_id@,
        },
{
    let mut i: usize = 0;
    while i < catalog.len()
        invariant
            i <= catalog@.len(),
            forall|k: int| 0 <= k < i ==> (#[trigger] catalog@[k]).id@ != model_id@,
        decreases catalog@.len() - i,
    {
        if same_text(catalog[i].id.as_str(), model_id) {
            return Some(i);
        }
        i = i + 1;
    }
    None
}

/// Whether a model that was just installed becomes the active one: a
/// speech-to-text model does where none is active.
pub fn activates_on_install(capability: ModelCapability, settings: &Settings) -> (activate: bool)
    ensures
        activate == (capability == ModelCapability::SpeechToText
            && settings.stt.active_model_id is None),
{
    match capability {
        ModelCapability::SpeechToText => settings.stt.active_model_id.is_none(),
        ModelCapability::TextToSpeech => false,
    }
}

/// Whether `active` names the model `model_id`.
pub open spec fn names(active: Option<String>, model_id: Seq<char>) -> bool {
    active matches Some(id) && id@ == model_id
}

/// Which engines lose their model when a model is deleted.
#[derive(Debug, Clone, Copy, PartialEq, Eq, Structural)]
pub struct Unloaded {
    pub stt: bool,
    pub tts: bool,
}

/// Forgets a model that is being deleted: where it is the active model of
/// a direction, that direction has no active model afterwards and its
/// engine is to be unloaded.
pub fn delete_model(settings: &mut Settings, model_id: &str) -> (unloaded: Unloaded)
    ensures
        unloaded.stt == names(old(settings).stt.active_model_id, model_id@),
        unloaded.tts == names(old(settings).tts.active_model_id, model_id@),
        final(settings).stt.active_model_id == (if unloaded.stt {
            None
        } else {
            old(settings).stt.active_model_id
        }),
        final(settings).tts.active_model_id == (if unloaded.tts {
            None
        } else {
            old(settings).tts.active_model_id
        }),
        final(settings).shortcuts == old(settings).shortcuts,
        final(settings).general == old(settings).general,
        final(settings).stt.language == old(settings).stt.language,
        final(settings).stt.injection_mode == old(settings).stt.injection_mode,
        final(settings).stt.recording_mode == old(settings).stt.recording_mode,
        final(settings).stt.model_idle_timeout_s == old(settings).stt.model_idle_timeout_s,
        final(settings).tts.speed_percent == old(settings).tts.speed_percent,
        final(settings).tts.voice_id == old(settings).tts.voice_id,
{
    let stt: bool = match &settings.stt.active_model_id {
        Some(id) => same_text(id.as_str(), model_id),
        None => false,
    };
    let tts: bool = match &settings.tts.active_model_id {
        Some(id) => same_text(id.as_str(), model_id),
        None => false,
    };
    if stt {
        settings.stt.active_model_id = None;
    }
    if tts {
        settings.tts.active_model_id = None;
    }
    Unloaded { stt, tts }
}

/// The active model of the direction that `capability` names; none for a
/// name that is no capability.
pub fn get_active_model<'a>(settings: &'a Settings, capability: &str) -> (active: &'a Option<
    String,
>)
    ensures
        match capability_named(capability@) {
            Some(ModelCapability::SpeechToText) => *active == settings.stt.active_model_id,
            Some(ModelCapability::TextToSpeech) => *active == settings.tts.active_model_id,
            None => *active is None,
        },
{
    match parse_capability(capability) {
        Some(ModelCapability::SpeechToText) => &settings.stt.active_model_id,
        Some(ModelCapability::TextToSpeech) => &settings.tts.active_model_id,
        None => &None,
    }
}


/// The models of a catalog with the capability `wanted`, in order.
pub open spec fn catalog_with(catalog: Seq<CatalogModel>, wanted: ModelCapability) -> Seq<
    CatalogModel,
>
    decreases catalog.len(),
{
    if catalog.len() == 0 {
        Seq::empty()
    } else if catalog.last().capability == wanted {
        catalog_with(catalog.drop_last(), wanted).push(catalog.last())
    } else {
        catalog_with(catalog.drop_last(), wanted)
    }
}

/// Why a catalog request was refused.
#[derive(Debug, Clone, Copy, PartialEq, Eq, Structural)]
pub enum CatalogError {
    /// The name is neither `stt` nor `tts`.
    InvalidCapability,
}

/// The catalog, whole or cut down to the capability that `capability`
/// names; a name that is no capability is refused.
pub fn get_catalog(catalog: Vec<CatalogModel>, capability: Option<&str>) -> (listed: Result<
    Vec<CatalogModel>,
    CatalogError,
>)
    ensures
        match capability {
            None => listed matches Ok(all) && all@ == catalog@,
            Some(name) => match capability_named(name@) {
                Some(wanted) => listed matches Ok(some) && some@ == catalog_with(catalog@, wanted),
                None => listed == Err::<Vec<CatalogModel>, CatalogError>(
                    CatalogError::InvalidCapability,
                ),
            },
        },
{
    let name: &str = match capability {
        None => {
            return Ok(catalog);
        },
        Some(name) => name,
    };
    let wanted: ModelCapability = match parse_capability(name) {
        Some(wanted) => wanted,
        None => {
            return Err(CatalogError::InvalidCapability);
        },
    };
    let ghost all = catalog@;
    let mut listed: Vec<CatalogModel> = Vec::new();
    assert(all.take(0) =~= Seq::<CatalogModel>::empty());
    for model in it: catalog
        invariant
            it.seq() == all,
            listed@ == catalog_with(all.take(it.index()), wanted),
    {
        assert(all.take(it.index() + 1).drop_last() =~= all.take(it.index()));
        let keep: bool = match (model.capability, wanted) {
            (ModelCapability::SpeechToText, ModelCapability::SpeechToText) => true,
            (ModelCapability::TextToSpeech, ModelCapability::TextToSpeech) => true,
            _ => false,
        };
        if keep {
            listed.push(model);
        }
    }
    assert(all.take(all.len() as int) =~= all);
    Ok(listed)
}

/// Where a file of a model is downloaded from: the repository that the
/// file names, or the model's own.
pub fn file_url(file: &ModelFile, model_id: &str) -> (url: String)
    ensures
        url@ == download_address(
            match file.hf_repo {
                Some(repo) => repo@,
                None => model_id@,
            },
            file.filename@,
        ),
{
    match &file.hf_repo {
        Some(repo) => download_url(repo.as_str(), file.filename.as_str()),
        None => download_url(model_id, file.filename.as_str()),
    }
}

/// What is done at start-up about the model that was active last time.
#[derive(Debug, Clone, Copy, PartialEq, Eq, Structural)]
pub enum StartupAction {
    /// No model was active: nothing to do.
    Nothing,
    /// The model is gone from disk: forget it.
    Forget,
    /// Load the model now.
    Load,
    /// Wait with loading until the model is needed.
    Defer,
}

/// Some installed model has this id.
pub open spec fn is_installed(installed: Seq<InstalledModel>, id: Seq<char>) -> bool {
    exists|k: int| 0 <= k < installed.len() && (#[trigger] installed[k]).id@ == id
}

/// Decides at start-up: an active model that is no longer installed is
/// forgotten; one that is installed is loaded at once where no idle timeout
/// is set and left for later otherwise.
pub fn startup_action(settings: &Settings, installed: &Vec<InstalledModel>) -> (action:
    StartupAction)
    ensures
        action == (match settings.stt.active_model_id {
            None => StartupAction::Nothing,
            Some(id) => if !is_installed(installed@, id@) {
                StartupAction::Forget
            } else if settings.stt.model_idle_timeout_s is None {
                StartupAction::Load
            } else {
                StartupAction::Defer
            },
        }),
{
    let id: &String = match &settings.stt.active_model_id {
        None => {
            return StartupAction::Nothing;
        },
        Some(id) => id,
    };
    let mut k: usize = 0;
    let mut found: bool = false;
    while k < installed.len() && !found
        invariant
            k <= installed@.len(),
            !found ==> forall|j: int| 0 <= j < k ==> (#[trigger] installed@[j]).id@ != id@,
            found ==> is_installed(installed@, id@),
        decreases installed@.len() - k + (if found { 0int } else { 1int }),
    {
        if same_text(installed[k].id.as_str(), id.as_str()) {
            found = true;
        } else {
            k = k + 1;
        }
    }
    if !found {
        StartupAction::Forget
    } else if settings.stt.model_idle_timeout_s.is_none() {
        StartupAction::Load
    } else {
        StartupAction::Defer
    }
}

} // verus!
