//! The catalog of models and the list of those installed.

use vstd::prelude::*;
use crate::engine::{EngineType, ModelCapability};

verus! {

/// A model that can be installed.
#[derive(Debug, Clone, PartialEq, Eq)]
pub struct CatalogModel {
    pub id: String,
    pub name: String,
    pub description: Option<String>,
    pub capability: ModelCapability,
    pub engine: EngineType,
    pub languages: Vec<String>,
    pub files: Vec<ModelFile>,
    pub preprocessing: Option<PreprocessingConfig>,
    /// The first application version that offers the model, if it is not
    /// offered by all.
    pub available_from_version: Option<String>,
}

/// One file of a model.
#[derive(Debug, Clone, PartialEq, Eq)]
pub struct ModelFile {
    pub filename: String,
    pub size_bytes: u64,
    /// The hub repository that holds the file, where it is not the model's own.
    pub hf_repo: Option<String>,
}

/// The features that a model is fed.
#[derive(Debug, Clone, PartialEq, Eq)]
pub struct PreprocessingConfig {
    pub sample_rate: u32,
    pub feature_type: String,
    pub n_mels: Option<u32>,
}

/// A model on disk.
#[derive(Debug, Clone, PartialEq, Eq)]
pub struct InstalledModel {
    pub id: String,
    pub name: String,
    pub capability: ModelCapability,
    pub engine: EngineType,
    pub path: String,
    pub installed_at: String,
    pub size_bytes: u64,
}

/// The models of `models` with the capability `wanted`, in order.
pub open spec fn with_capability(models: Seq<InstalledModel>, wanted: ModelCapability) -> Seq<
    InstalledModel,
>
    decreases models.len(),
{
    if models.len() == 0 {
        Seq::empty()
    } else if models.last().capability == wanted {
        with_capability(models.drop_last(), wanted).push(models.last())
    } else {
        with_capability(models.drop_last(), wanted)
    }
}

/// The models of `models` whose id is not `id`, in order.
pub open spec fn without_id(models: Seq<InstalledModel>, id: Seq<char>) -> Seq<InstalledModel>
    decreases models.len(),
{
    if models.len() == 0 {
        Seq::empty()
    } else if models.last().id@ == id {
        without_id(models.drop_last(), id)
    } else {
        without_id(models.drop_last(), id).push(models.last())
    }
}

/// The installed models, all of them or those of one capability.
pub fn list_installed_models(
    models: Vec<InstalledModel>,
    capability_filter: Option<&ModelCapability>,
) -> (listed: Vec<InstalledModel>)
    ensures
        listed@ == (match capability_filter {
            Some(wanted) => with_capability(models@, *wanted),
            None => models@,
        }),
{
    match capability_filter {
        None => models,
        Some(wanted) => {
            let ghost all = models@;
            let mut listed: Vec<InstalledModel> = Vec::new();
            assert(all.take(0) =~= Seq::<InstalledModel>::empty());
            for model in it: models
                invariant
                    it.seq() == all,
                    listed@ == with_capability(all.take(it.index()), *wanted),
            {
                assert(all.take(it.index() + 1).drop_last() =~= all.take(it.index()));
                let keep: bool = match (model.capability, *wanted) {
                    (ModelCapability::SpeechToText, ModelCapability::SpeechToText) => true,
                    (ModelCapability::TextToSpeech, ModelCapability::TextToSpeech) => true,
                    _ => false,
                };
                if keep {
                    listed.push(model);
                }
            }
            assert(all.take(all.len() as int) =~= all);
            listed
        },
    }
}

/// Takes the model with this id off the list.
pub fn remove_installed_model(models: Vec<InstalledModel>, model_id: &str) -> (kept: Vec<
    InstalledModel,
>)
    ensures
        kept@ == without_id(models@, model_id@),
{
    let ghost all = models@;
    let wanted: String = model_id.to_owned();
    let mut kept: Vec<InstalledModel> = Vec::new();
    assert(all.take(0) =~= Seq::<InstalledModel>::empty());
    for model in it: models
        invariant
            it.seq() == all,
            wanted@ == model_id@,
            kept@ == without_id(all.take(it.index()), model_id@),
    {
        assert(all.take(it.index() + 1).drop_last() =~= all.take(it.index()));
        if model.id != wanted {
            kept.push(model);
        }
    }
    assert(all.take(all.len() as int) =~= all);
    kept
}

/// Puts a model on the list, in place of any with the same id and at the end.
pub fn add_installed_model(models: Vec<InstalledModel>, model: InstalledModel) -> (listed: Vec<
    InstalledModel,
>)
    ensures
        listed@ == without_id(models@, model.id@).push(model),
{
    let mut listed: Vec<InstalledModel> = remove_installed_model(models, model.id.as_str());
    listed.push(model);
    listed
}

} // verus!
