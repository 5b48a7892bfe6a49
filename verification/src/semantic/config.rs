//! Settings of the semantic index.
use vstd::prelude::*;
use vstd::string::StringExecFns;
use crate::text::chars_of;

verus! {

/// Name of the directory of the index below the root of the workspace.
pub const DEFAULT_SEMANTIC_INDEX_DIR: &'static str = ".codex-index";

/// Name of the embedding model that is used where none is set.
pub const DEFAULT_SEMANTIC_INDEX_MODEL: &'static str = "text-embedding-3-small";

/// Number of lines of a chunk where none is set.
pub const DEFAULT_SEMANTIC_INDEX_CHUNK_MAX_LINES: usize = 120;

/// Number of hits that a search returns where none is set.
pub const DEFAULT_SEMANTIC_INDEX_RETRIEVE_TOP_K: usize = 8;

/// Number of characters of a snippet where none is set.
pub const DEFAULT_SEMANTIC_INDEX_RETRIEVE_MAX_CHARS: usize = 12000;

/// How files are cut into chunks.
#[derive(Debug, Clone, Copy, PartialEq, Eq, Structural)]
pub struct ChunkingConfig {
    pub max_lines: usize,
}

/// How much a search returns.
#[derive(Debug, Clone, Copy, PartialEq, Eq, Structural)]
pub struct RetrieveConfig {
    pub top_k: usize,
    pub max_chars: usize,
}

/// The chunking section of the configuration file.
#[derive(Debug, Clone, Copy, PartialEq, Eq, Structural)]
pub struct ChunkingConfigToml {
    pub max_lines: Option<usize>,
}

/// The retrieval section of the configuration file.
#[derive(Debug, Clone, Copy, PartialEq, Eq, Structural)]
pub struct RetrieveConfigToml {
    pub top_k: Option<usize>,
    pub max_chars: Option<usize>,
}

/// The section of the configuration file on the semantic index.
#[derive(Debug, Clone)]
pub struct SemanticIndexConfigToml {
    pub enabled: Option<bool>,
    pub dir: Option<String>,
    pub embedding_model: Option<String>,
    pub chunk: ChunkingConfigToml,
    pub retrieve: RetrieveConfigToml,
}

impl Default for ChunkingConfigToml {
    fn default() -> (section: ChunkingConfigToml)
        ensures
            section == (ChunkingConfigToml { max_lines: None }),
    {
        ChunkingConfigToml { max_lines: None }
    }
}

impl Default for RetrieveConfigToml {
    fn default() -> (section: RetrieveConfigToml)
        ensures
            section == (RetrieveConfigToml { top_k: None, max_chars: None }),
    {
        RetrieveConfigToml { top_k: None, max_chars: None }
    }
}

impl Default for SemanticIndexConfigToml {
    fn default() -> (section: SemanticIndexConfigToml)
        ensures
            section.enabled is None,
            section.dir is None,
            section.embedding_model is None,
            section.chunk == (ChunkingConfigToml { max_lines: None }),
            section.retrieve == (RetrieveConfigToml { top_k: None, max_chars: None }),
    {
        SemanticIndexConfigToml {
            enabled: None,
            dir: None,
            embedding_model: None,
            chunk: ChunkingConfigToml::default(),
            retrieve: RetrieveConfigToml::default(),
        }
    }
}

/// The settings of the semantic index in force.
#[derive(Debug, Clone)]
pub struct SemanticIndexConfig {
    pub enabled: bool,
    pub dir: String,
    pub embedding_model: String,
    pub chunk: ChunkingConfig,
    pub retrieve: RetrieveConfig,
}

/// `dir` as it stands where it starts at the root of the file system, else
/// below `base`.
pub open spec fn resolved_dir(dir: Seq<char>, base: Seq<char>) -> Seq<char> {
    if dir.len() > 0 && dir[0] == '/' {
        dir
    } else {
        base + "/"@ + dir
    }
}

/// `dir` as it stands where it starts at the root of the file system, else
/// below `base`.
pub fn resolve_dir(dir: &str, base: &str) -> (resolved: String)
    ensures
        resolved@ == resolved_dir(dir@, base@),
{
    let chars = chars_of(dir);
    if chars.len() > 0 && chars[0] == '/' {
        String::from_str(dir)
    } else {
        String::from_str(base).concat("/").concat(dir)
    }
}

impl SemanticIndexConfig {
    /// The settings that the section `semantic` asks for, with the defaults
    /// where it is silent. The directory of the index is taken below
    /// `workspace_root` unless it starts at the root of the file system.
    pub fn new(workspace_root: &str, semantic: Option<SemanticIndexConfigToml>) -> (config:
        SemanticIndexConfig)
        ensures
            config.enabled == match semantic {
                Some(SemanticIndexConfigToml { enabled: Some(enabled), .. }) => enabled,
                _ => true,
            },
            config.dir@ == match semantic {
                Some(SemanticIndexConfigToml { dir: Some(dir), .. }) => resolved_dir(
                    dir@,
                    workspace_root@,
                ),
                _ => resolved_dir(DEFAULT_SEMANTIC_INDEX_DIR@, workspace_root@),
            },
            config.embedding_model@ == match semantic {
                Some(SemanticIndexConfigToml { embedding_model: Some(model), .. }) => model@,
                _ => DEFAULT_SEMANTIC_INDEX_MODEL@,
            },
            config.chunk.max_lines == match semantic {
                Some(
                    SemanticIndexConfigToml {
                        chunk: ChunkingConfigToml { max_lines: Some(max_lines) },
                        ..
                    },
                ) => max_lines,
                _ => DEFAULT_SEMANTIC_INDEX_CHUNK_MAX_LINES,
            },
            config.retrieve.top_k == match semantic {
                Some(
                    SemanticIndexConfigToml {
                        retrieve: RetrieveConfigToml { top_k: Some(top_k), .. },
                        ..
                    },
                ) => top_k,
                _ => DEFAULT_SEMANTIC_INDEX_RETRIEVE_TOP_K,
            },
            config.retrieve.max_chars == match semantic {
                Some(
                    SemanticIndexConfigToml {
                        retrieve: RetrieveConfigToml { max_chars: Some(max_chars), .. },
                        ..
                    },
                ) => max_chars,
                _ => DEFAULT_SEMANTIC_INDEX_RETRIEVE_MAX_CHARS,
            },
    {
        let semantic = match semantic {
            Some(section) => section,
            None => SemanticIndexConfigToml::default(),
        };
        let dir = match semantic.dir {
            Some(dir) => resolve_dir(dir.as_str(), workspace_root),
            None => resolve_dir(DEFAULT_SEMANTIC_INDEX_DIR, workspace_root),
        };
        let chunk = ChunkingConfig {
            max_lines: match semantic.chunk.max_lines {
                Some(max_lines) => max_lines,
                None => DEFAULT_SEMANTIC_INDEX_CHUNK_MAX_LINES,
            },
        };
        let retrieve = RetrieveConfig {
            top_k: match semantic.retrieve.top_k {
                Some(top_k) => top_k,
                None => DEFAULT_SEMANTIC_INDEX_RETRIEVE_TOP_K,
            },
            max_chars: match semantic.retrieve.max_chars {
                Some(max_chars) => max_chars,
                None => DEFAULT_SEMANTIC_INDEX_RETRIEVE_MAX_CHARS,
            },
        };
        let enabled = match semantic.enabled {
            Some(enabled) => enabled,
            None => true,
        };
        let embedding_model = match semantic.embedding_model {
            Some(model) => model,
            None => String::from_str(DEFAULT_SEMANTIC_INDEX_MODEL),
        };
        SemanticIndexConfig { enabled, dir, embedding_model, chunk, retrieve }
    }
}

} // verus!
