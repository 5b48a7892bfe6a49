use semcache::cache::config::{
    CacheConfig, CacheConfigToml, CacheToolTtl, CacheToolTtlToml, CacheableTool,
    DEFAULT_CACHE_DEFAULT_TTL_SECS, DEFAULT_CACHE_DIR_NAME, DEFAULT_CACHE_GREP_FILES_TTL_SECS,
    DEFAULT_CACHE_MAX_BYTES, DEFAULT_CACHE_READ_FILE_TTL_SECS,
};
use semcache::semantic::config::{
    resolve_dir, ChunkingConfigToml, RetrieveConfigToml, SemanticIndexConfig,
    SemanticIndexConfigToml, DEFAULT_SEMANTIC_INDEX_CHUNK_MAX_LINES, DEFAULT_SEMANTIC_INDEX_DIR,
    DEFAULT_SEMANTIC_INDEX_MODEL, DEFAULT_SEMANTIC_INDEX_RETRIEVE_MAX_CHARS,
    DEFAULT_SEMANTIC_INDEX_RETRIEVE_TOP_K,
};

#[test]
fn defaults_use_codex_home_and_tool_overrides() {
    let home = "/home/user/.tool";

    let config = CacheConfig::new(home, None);

    let expected_dir = format!("{home}/{DEFAULT_CACHE_DIR_NAME}");
    assert!(config.enabled);
    assert_eq!(config.dir, expected_dir);
    assert_eq!(config.max_bytes, DEFAULT_CACHE_MAX_BYTES);
    assert_eq!(config.default_ttl_secs, DEFAULT_CACHE_DEFAULT_TTL_SECS);
    assert_eq!(config.ttl_for(CacheableTool::ReadFile), DEFAULT_CACHE_READ_FILE_TTL_SECS);
    assert_eq!(config.ttl_for(CacheableTool::GrepFiles), DEFAULT_CACHE_GREP_FILES_TTL_SECS);
    assert_eq!(config.ttl_for(CacheableTool::ListDir), DEFAULT_CACHE_DEFAULT_TTL_SECS);
}

#[test]
fn honors_overrides_and_ttl_lookup() {
    let home = "/home/user/.tool";
    let cache_dir = format!("{home}/cache_override");
    let cache = CacheConfigToml {
        enabled: Some(false),
        dir: Some(cache_dir.clone()),
        max_bytes: Some(1024),
        default_ttl_sec: Some(5),
        tool_ttl_sec: CacheToolTtlToml {
            read_file: Some(1),
            list_dir: Some(2),
            grep_files: Some(3),
        },
    };

    let config = CacheConfig::new(home, Some(cache));

    assert!(!config.enabled);
    assert_eq!(config.dir, cache_dir);
    assert_eq!(config.max_bytes, 1024);
    assert_eq!(config.default_ttl_secs, 5);
    assert_eq!(config.ttl_for(CacheableTool::ReadFile), 1);
    assert_eq!(config.ttl_for(CacheableTool::ListDir), 2);
    assert_eq!(config.ttl_for(CacheableTool::GrepFiles), 3);
}

#[test]
fn default_constants_have_their_values() {
    assert_eq!(DEFAULT_CACHE_MAX_BYTES, 256 * 1024 * 1024);
    assert_eq!(DEFAULT_CACHE_DEFAULT_TTL_SECS, 60);
    assert_eq!(DEFAULT_CACHE_READ_FILE_TTL_SECS, 300);
    assert_eq!(DEFAULT_CACHE_GREP_FILES_TTL_SECS, 10);
    assert_eq!(DEFAULT_CACHE_DIR_NAME, "cache");
}

#[test]
fn config_keys_name_the_categories() {
    assert_eq!(CacheableTool::ReadFile.config_key(), "read_file");
    assert_eq!(CacheableTool::ListDir.config_key(), "list_dir");
    assert_eq!(CacheableTool::GrepFiles.config_key(), "grep_files");
    assert_eq!(
        CacheableTool::all(),
        [CacheableTool::ReadFile, CacheableTool::ListDir, CacheableTool::GrepFiles]
    );
}

#[test]
fn partial_overrides_keep_the_other_defaults() {
    let mut ttl = CacheToolTtl::default();
    assert_eq!(ttl.for_tool(CacheableTool::ReadFile), Some(300));
    assert_eq!(ttl.for_tool(CacheableTool::ListDir), None);
    assert_eq!(ttl.for_tool(CacheableTool::GrepFiles), Some(10));
    ttl.override_with(&CacheToolTtlToml { read_file: None, list_dir: Some(7), grep_files: None });
    assert_eq!(
        ttl,
        CacheToolTtl { read_file: Some(300), list_dir: Some(7), grep_files: Some(10) }
    );
    let section = CacheConfigToml::default();
    assert!(section.enabled.is_none() && section.dir.is_none());
    assert_eq!(section.tool_ttl_sec, CacheToolTtlToml::default());
}

#[test]
fn defaults_resolve_workspace_relative_dir() {
    let workspace = "/work/project";
    let config = SemanticIndexConfig::new(workspace, None);

    let expected_dir = resolve_dir(DEFAULT_SEMANTIC_INDEX_DIR, workspace);

    assert!(config.enabled);
    assert_eq!(config.dir, expected_dir);
    assert_eq!(config.dir, "/work/project/.codex-index");
    assert_eq!(config.embedding_model, DEFAULT_SEMANTIC_INDEX_MODEL);
    assert_eq!(config.chunk.max_lines, DEFAULT_SEMANTIC_INDEX_CHUNK_MAX_LINES);
    assert_eq!(config.retrieve.top_k, DEFAULT_SEMANTIC_INDEX_RETRIEVE_TOP_K);
    assert_eq!(config.retrieve.max_chars, DEFAULT_SEMANTIC_INDEX_RETRIEVE_MAX_CHARS);
}

#[test]
fn overrides_are_resolved_against_workspace() {
    let workspace = "/work/project";
    let semantic = SemanticIndexConfigToml {
        enabled: Some(false),
        dir: Some("custom-index".to_string()),
        embedding_model: Some("model-x".to_string()),
        chunk: ChunkingConfigToml { max_lines: Some(42) },
        retrieve: RetrieveConfigToml { top_k: Some(5), max_chars: Some(1024) },
    };

    let config = SemanticIndexConfig::new(workspace, Some(semantic));

    let expected_dir = resolve_dir("custom-index", workspace);
    assert!(!config.enabled);
    assert_eq!(config.dir, expected_dir);
    assert_eq!(config.dir, "/work/project/custom-index");
    assert_eq!(config.embedding_model, "model-x");
    assert_eq!(config.chunk.max_lines, 42);
    assert_eq!(config.retrieve.top_k, 5);
    assert_eq!(config.retrieve.max_chars, 1024);
}

#[test]
fn a_rooted_dir_stands_as_it_is() {
    assert_eq!(resolve_dir("/var/index", "/work/project"), "/var/index");
    assert_eq!(resolve_dir("", "/work"), "/work/");
    assert_eq!(DEFAULT_SEMANTIC_INDEX_CHUNK_MAX_LINES, 120);
    assert_eq!(DEFAULT_SEMANTIC_INDEX_RETRIEVE_TOP_K, 8);
    assert_eq!(DEFAULT_SEMANTIC_INDEX_RETRIEVE_MAX_CHARS, 12_000);
    assert_eq!(DEFAULT_SEMANTIC_INDEX_MODEL, "text-embedding-3-small");
}
