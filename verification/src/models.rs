//! The registry of embedding models and per-project settings.
use vstd::prelude::*;

use crate::text::{str_eq, string_views};

verus! {

/// An embedding model.
#[derive(Debug)]
pub struct ModelConfig {
    pub name: String,
    pub provider: String,
    pub dimensions: usize,
    pub max_tokens: usize,
    pub description: String,
}

impl ModelConfig {
    /// A copy of this configuration.
    pub fn duplicate(&self) -> (r: ModelConfig)
        ensures
            r == *self,
    {
        ModelConfig {
            name: self.name.clone(),
            provider: self.provider.clone(),
            dimensions: self.dimensions,
            max_tokens: self.max_tokens,
            description: self.description.clone(),
        }
    }
}

/// Known models under their short aliases, and the alias used by default.
/// Each alias appears once.
#[derive(Debug)]
pub struct ModelRegistry {
    pub models: Vec<(String, ModelConfig)>,
    pub default_model: String,
}

/// No alias appears twice.
pub open spec fn aliases_distinct(models: Seq<(String, ModelConfig)>) -> bool {
    forall|i: int, j: int| 0 <= i < j < models.len() ==> (#[trigger] models[i]).0@ != (#[trigger] models[j]).0@
}

impl ModelRegistry {
    /// Each alias names one model.
    pub open spec fn well_formed(&self) -> bool {
        aliases_distinct(self.models@)
    }
}

/// Index of the first entry with alias `alias`.
pub open spec fn alias_index(models: Seq<(String, ModelConfig)>, alias: Seq<char>) -> Option<int>
    decreases models.len(),
{
    if models.len() == 0 {
        None
    } else {
        match alias_index(models.drop_last(), alias) {
            Some(i) => Some(i),
            None => if models.last().0@ == alias {
                Some(models.len() - 1)
            } else {
                None
            },
        }
    }
}

/// Index of the first entry whose model is named `name`.
pub open spec fn model_name_index(models: Seq<(String, ModelConfig)>, name: Seq<char>) -> Option<int>
    decreases models.len(),
{
    if models.len() == 0 {
        None
    } else {
        match model_name_index(models.drop_last(), name) {
            Some(i) => Some(i),
            None => if models.last().1.name@ == name {
                Some(models.len() - 1)
            } else {
                None
            },
        }
    }
}

/// The entries of the default registry: alias, model name, provider,
/// dimensions, token limit and description.
pub open spec fn default_registry_entries() -> Seq<(Seq<char>, Seq<char>, Seq<char>, usize, usize, Seq<char>)> {
    seq![
        ("bge-small"@, "BAAI/bge-small-en-v1.5"@, "fastembed"@, 384usize, 512usize, "Small, fast English embedding model"@),
        ("minilm"@, "sentence-transformers/all-MiniLM-L6-v2"@, "fastembed"@, 384usize, 256usize, "Lightweight English embedding model"@),
        ("nomic-v1.5"@, "nomic-embed-text-v1.5"@, "fastembed"@, 768usize, 8192usize, "High-quality English embedding model with large context window"@),
        ("jina-code"@, "jina-embeddings-v2-base-code"@, "fastembed"@, 768usize, 8192usize, "Code-specific embedding model optimized for programming tasks"@),
        ("jina-code-0.5b"@, "jina-code-embeddings-0.5b"@, "jina-api"@, 896usize, 8192usize, "Jina AI API: 494M parameter code embedding model for NL2Code, code similarity, and cross-language retrieval (requires JINA_API_KEY)"@),
        ("jina-code-1.5b"@, "jina-code-embeddings-1.5b"@, "jina-api"@, 1536usize, 8192usize, "Jina AI API: 1.54B parameter advanced code embedding model with enhanced retrieval capabilities (requires JINA_API_KEY)"@),
        ("jina-v3"@, "jina-embeddings-v3"@, "jina-api"@, 1024usize, 8192usize, "Jina AI API: 570M parameter multilingual text embedding model (requires JINA_API_KEY)"@),
        ("jina-v4"@, "jina-embeddings-v4"@, "jina-api"@, 1536usize, 8192usize, "Jina AI API: 3.8B parameter multimodal embedding model - BEST for indexing large code files (supports 8K+ tokens, outputs 1536d for jina-code-1.5b compatibility) (requires JINA_API_KEY)"@),
    ]
}

/// Entry `i` of `models` matches entry `i` of the default registry.
pub open spec fn default_entry_ok(models: Seq<(String, ModelConfig)>, i: int) -> bool {
    let e = default_registry_entries()[i];
    &&& models[i].0@ == e.0
    &&& models[i].1.name@ == e.1
    &&& models[i].1.provider@ == e.2
    &&& models[i].1.dimensions == e.3
    &&& models[i].1.max_tokens == e.4
    &&& models[i].1.description@ == e.5
}

fn entry(alias: &str, name: &str, provider: &str, dimensions: usize, max_tokens: usize, description: &str) -> (r: (String, ModelConfig))
    ensures
        r.0@ == alias@,
        r.1.name@ == name@,
        r.1.provider@ == provider@,
        r.1.dimensions == dimensions,
        r.1.max_tokens == max_tokens,
        r.1.description@ == description@,
{
    (alias.to_owned(), ModelConfig {
        name: name.to_owned(),
        provider: provider.to_owned(),
        dimensions,
        max_tokens,
        description: description.to_owned(),
    })
}

impl ModelRegistry {
    /// The built-in models; `bge-small` is the default.
    pub fn default() -> (r: ModelRegistry)
        ensures
            r.models@.len() == default_registry_entries().len(),
            forall|i: int| 0 <= i < r.models@.len() ==> default_entry_ok(r.models@, i),
            r.default_model@ == "bge-small"@,
            r.well_formed(),
    {
        let mut models: Vec<(String, ModelConfig)> = Vec::new();
        models.push(entry("bge-small", "BAAI/bge-small-en-v1.5", "fastembed", 384, 512, "Small, fast English embedding model"));
        models.push(entry("minilm", "sentence-transformers/all-MiniLM-L6-v2", "fastembed", 384, 256, "Lightweight English embedding model"));
        models.push(entry("nomic-v1.5", "nomic-embed-text-v1.5", "fastembed", 768, 8192, "High-quality English embedding model with large context window"));
        models.push(entry("jina-code", "jina-embeddings-v2-base-code", "fastembed", 768, 8192, "Code-specific embedding model optimized for programming tasks"));
        models.push(entry("jina-code-0.5b", "jina-code-embeddings-0.5b", "jina-api", 896, 8192, "Jina AI API: 494M parameter code embedding model for NL2Code, code similarity, and cross-language retrieval (requires JINA_API_KEY)"));
        models.push(entry("jina-code-1.5b", "jina-code-embeddings-1.5b", "jina-api", 1536, 8192, "Jina AI API: 1.54B parameter advanced code embedding model with enhanced retrieval capabilities (requires JINA_API_KEY)"));
        models.push(entry("jina-v3", "jina-embeddings-v3", "jina-api", 1024, 8192, "Jina AI API: 570M parameter multilingual text embedding model (requires JINA_API_KEY)"));
        models.push(entry("jina-v4", "jina-embeddings-v4", "jina-api", 1536, 8192, "Jina AI API: 3.8B parameter multimodal embedding model - BEST for indexing large code files (supports 8K+ tokens, outputs 1536d for jina-code-1.5b compatibility) (requires JINA_API_KEY)"));
        proof {
            reveal_strlit("bge-small");
            reveal_strlit("minilm");
            reveal_strlit("nomic-v1.5");
            reveal_strlit("jina-code");
            reveal_strlit("jina-code-0.5b");
            reveal_strlit("jina-code-1.5b");
            reveal_strlit("jina-v3");
            reveal_strlit("jina-v4");
            let m = models@;
            assert(m[0].0@[0] == 'b' && m[1].0@[0] == 'm' && m[2].0@[0] == 'n');
            assert(m[3].0@.len() == 9 && m[4].0@.len() == 14 && m[5].0@.len() == 14 && m[6].0@.len() == 7 && m[7].0@.len() == 7);
            assert(m[3].0@[0] == 'j' && m[4].0@[0] == 'j' && m[5].0@[0] == 'j' && m[6].0@[0] == 'j' && m[7].0@[0] == 'j');
            assert(m[4].0@[10] == '0' && m[5].0@[10] == '1');
            assert(m[6].0@[6] == '3' && m[7].0@[6] == '4');
        }
        ModelRegistry { models, default_model: "bge-small".to_owned() }
    }

    /// The model registered under an alias.
    pub fn get_model(&self, name: &str) -> (r: Option<&ModelConfig>)
        ensures
            r == match alias_index(self.models@, name@) {
                Some(i) => Some(&self.models@[i].1),
                None => None,
            },
    {
        let mut i: usize = 0;
        while i < self.models.len()
            invariant
                i <= self.models@.len(),
                alias_index(self.models@.take(i as int), name@) is None,
            decreases self.models@.len() - i,
        {
            proof {
                assert(self.models@.take(i + 1).drop_last() =~= self.models@.take(i as int));
            }
            if str_eq(self.models[i].0.as_str(), name) {
                proof {
                    lemma_index_prefix(self.models@, name@, i as int);
                }
                return Some(&self.models[i].1);
            }
            i += 1;
        }
        assert(self.models@.take(self.models@.len() as int) =~= self.models@);
        None
    }

    /// The model registered under the default alias.
    pub fn get_default_model(&self) -> (r: Option<&ModelConfig>)
        ensures
            r == match alias_index(self.models@, self.default_model@) {
                Some(i) => Some(&self.models@[i].1),
                None => None,
            },
    {
        self.get_model(self.default_model.as_str())
    }
}

/// A match found after a prefix without one is the first match.
proof fn lemma_index_prefix(models: Seq<(String, ModelConfig)>, alias: Seq<char>, i: int)
    requires
        0 <= i < models.len(),
        alias_index(models.take(i), alias) is None,
        models[i].0@ == alias,
    ensures
        alias_index(models, alias) == Some(i),
    decreases models.len(),
{
    if i == models.len() - 1 {
        assert(models.drop_last() =~= models.take(i));
    } else {
        assert(models.drop_last().take(i) =~= models.take(i));
        lemma_index_prefix(models.drop_last(), alias, i);
    }
}

/// Why no model could be selected.
#[derive(Debug, Clone)]
pub enum ModelSelectionError {
    /// The requested name is neither an alias nor a model name; the known
    /// aliases are listed.
    UnknownModel(String, Vec<String>),
    /// The default alias names no model.
    NoDefaultModel,
}

/// Selecting `requested`: its alias entry, else the first entry whose model
/// has that name, else an error; with no request, the default alias.
pub open spec fn selection_ok(
    models: Seq<(String, ModelConfig)>,
    default_model: Seq<char>,
    requested: Option<Seq<char>>,
    r: Result<(String, ModelConfig), ModelSelectionError>,
) -> bool {
    match requested {
        Some(name) => match alias_index(models, name) {
            Some(i) => r matches Ok(p) && p.0@ == name && p.1 == models[i].1,
            None => match model_name_index(models, name) {
                Some(j) => r matches Ok(p) && p.0@ == models[j].0@ && p.1 == models[j].1,
                None => r matches Err(ModelSelectionError::UnknownModel(n, avail)) && n@ == name
                    && string_views(avail@) == models.map_values(|e: (String, ModelConfig)| e.0@),
            },
        },
        None => match alias_index(models, default_model) {
            Some(i) => r matches Ok(p) && p.0@ == default_model && p.1 == models[i].1,
            None => r matches Err(ModelSelectionError::NoDefaultModel),
        },
    }
}

/// Resolves a requested model (alias or full model name) against the
/// registry, falling back to the default alias.
pub fn resolve_model_selection(registry: &ModelRegistry, requested: Option<&str>) -> (r: Result<(String, ModelConfig), ModelSelectionError>)
    ensures
        selection_ok(
            registry.models@,
            registry.default_model@,
            match requested {
                Some(n) => Some(n@),
                None => None,
            },
            r,
        ),
{
    match requested {
        Some(name) => {
            if let Some(config) = registry.get_model(name) {
                return Ok((name.to_owned(), config.duplicate()));
            }
            let mut i: usize = 0;
            while i < registry.models.len()
                invariant
                    i <= registry.models@.len(),
                    alias_index(registry.models@, name@) is None,
                    requested == Some(name),
                    model_name_index(registry.models@.take(i as int), name@) is None,
                decreases registry.models@.len() - i,
            {
                proof {
                    assert(registry.models@.take(i + 1).drop_last() =~= registry.models@.take(i as int));
                }
                if str_eq(registry.models[i].1.name.as_str(), name) {
                    proof {
                        lemma_name_index_prefix(registry.models@, name@, i as int);
                    }
                    let alias = registry.models[i].0.clone();
                    let config = registry.models[i].1.duplicate();
                    assert(alias@ == registry.models@[i as int].0@);
                    assert(model_name_index(registry.models@, name@) == Some(i as int));
                    return Ok((alias, config));
                }
                i += 1;
            }
            assert(registry.models@.take(registry.models@.len() as int) =~= registry.models@);
            let mut avail: Vec<String> = Vec::new();
            let mut k: usize = 0;
            while k < registry.models.len()
                invariant
                    k <= registry.models@.len(),
                    string_views(avail@) == registry.models@.take(k as int).map_values(|e: (String, ModelConfig)| e.0@),
                decreases registry.models@.len() - k,
            {
                let a = registry.models[k].0.clone();
                assert(a@ == registry.models@[k as int].0@);
                let ghost old_avail = avail@;
                avail.push(a);
                assert(string_views(avail@) =~= string_views(old_avail).push(a@));
                assert(registry.models@.take(k + 1).map_values(|e: (String, ModelConfig)| e.0@) =~= registry.models@.take(k as int).map_values(|e: (String, ModelConfig)| e.0@).push(registry.models@[k as int].0@));
                assert(string_views(avail@) =~= registry.models@.take(k + 1).map_values(|e: (String, ModelConfig)| e.0@));
                k += 1;
            }
            assert(registry.models@.take(registry.models@.len() as int) =~= registry.models@);
            Err(ModelSelectionError::UnknownModel(name.to_owned(), avail))
        },
        None => {
            match registry.get_default_model() {
                Some(config) => Ok((registry.default_model.clone(), config.duplicate())),
                None => Err(ModelSelectionError::NoDefaultModel),
            }
        },
    }
}

proof fn lemma_name_index_prefix(models: Seq<(String, ModelConfig)>, name: Seq<char>, i: int)
    requires
        0 <= i < models.len(),
        model_name_index(models.take(i), name) is None,
        models[i].1.name@ == name,
    ensures
        model_name_index(models, name) == Some(i),
    decreases models.len(),
{
    if i == models.len() - 1 {
        assert(models.drop_last() =~= models.take(i));
    } else {
        assert(models.drop_last().take(i) =~= models.take(i));
        lemma_name_index_prefix(models.drop_last(), name, i);
    }
}

/// Settings of one project.
#[derive(Debug)]
pub struct ProjectConfig {
    pub model: String,
    pub chunk_size: usize,
    pub chunk_overlap: usize,
    pub index_backend: String,
}

impl ProjectConfig {
    /// The model `bge-small`, chunks of 512 with 128 overlap, HNSW index.
    pub fn default() -> (r: ProjectConfig)
        ensures
            r.model@ == "bge-small"@,
            r.chunk_size == 512,
            r.chunk_overlap == 128,
            r.index_backend@ == "hnsw"@,
    {
        ProjectConfig {
            model: "bge-small".to_owned(),
            chunk_size: 512,
            chunk_overlap: 128,
            index_backend: "hnsw".to_owned(),
        }
    }
}


/// The alias shown for a model name: the alias of the first entry whose
/// model has that name, else the name itself.
pub open spec fn alias_shown(models: Seq<(String, ModelConfig)>, model_name: Seq<char>) -> Seq<char> {
    match model_name_index(models, model_name) {
        Some(j) => models[j].0@,
        None => model_name,
    }
}

/// The alias under which the registry lists a model name; see `alias_shown`.
pub fn alias_for_model(registry: &ModelRegistry, model_name: &str) -> (r: String)
    ensures
        r@ == alias_shown(registry.models@, model_name@),
{
    let mut i: usize = 0;
    while i < registry.models.len()
        invariant
            i <= registry.models@.len(),
            model_name_index(registry.models@.take(i as int), model_name@) is None,
        decreases registry.models@.len() - i,
    {
        let ghost prefix = registry.models@.take(i + 1);
        assert(prefix.drop_last() =~= registry.models@.take(i as int));
        if str_eq(registry.models[i].1.name.as_str(), model_name) {
            proof {
                lemma_name_index_prefix(registry.models@, model_name@, i as int);
            }
            return registry.models[i].0.clone();
        }
        i += 1;
    }
    assert(registry.models@.take(registry.models@.len() as int) =~= registry.models@);
    model_name.to_owned()
}

/// The configuration a name selects, as `resolve_model_selection` finds it.
pub open spec fn selected_config(models: Seq<(String, ModelConfig)>, name: Seq<char>) -> Option<ModelConfig> {
    match alias_index(models, name) {
        Some(i) => Some(models[i].1),
        None => match model_name_index(models, name) {
            Some(j) => Some(models[j].1),
            None => None,
        },
    }
}

/// Whether switching the index to the model named `target_name` means
/// rebuilding it: always when forced, else unless the model the index was
/// built with (if known) selects a configuration of that same model name.
pub fn switch_needs_rebuild(registry: &ModelRegistry, force: bool, existing_model: Option<&str>, target_name: &str) -> (r: bool)
    ensures
        r == (force || match existing_model {
            Some(m) => match selected_config(registry.models@, m@) {
                Some(c) => c.name@ != target_name@,
                None => true,
            },
            None => true,
        }),
{
    if force {
        return true;
    }
    match existing_model {
        Some(m) => match resolve_model_selection(registry, Some(m)) {
            Ok((_alias, config)) => !crate::text::str_eq(config.name.as_str(), target_name),
            Err(_) => true,
        },
        None => true,
    }
}

} // verus!
