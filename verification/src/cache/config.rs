//! Cache policy: which tools are cached and for how long.
use vstd::prelude::*;
use vstd::string::StringExecFns;

verus! {

/// Name of the cache directory below the home directory.
pub const DEFAULT_CACHE_DIR_NAME: &'static str = "cache";

/// Default byte budget of the cache: 256 MiB.
pub const DEFAULT_CACHE_MAX_BYTES: u64 = 268435456;

/// Time-to-live, in seconds, of a category without one of its own.
pub const DEFAULT_CACHE_DEFAULT_TTL_SECS: u64 = 60;

/// Time-to-live, in seconds, of cached file reads.
pub const DEFAULT_CACHE_READ_FILE_TTL_SECS: u64 = 300;

/// Time-to-live, in seconds, of cached text searches.
pub const DEFAULT_CACHE_GREP_FILES_TTL_SECS: u64 = 10;

/// The categories of tool calls whose results are cached.
#[derive(Debug, Clone, Copy, PartialEq, Eq, Hash, Structural)]
pub enum CacheableTool {
    ReadFile,
    ListDir,
    GrepFiles,
}

impl CacheableTool {
    /// The name of the category in configuration files.
    pub open spec fn spec_config_key(self) -> Seq<char> {
        match self {
            CacheableTool::ReadFile => "read_file"@,
            CacheableTool::ListDir => "list_dir"@,
            CacheableTool::GrepFiles => "grep_files"@,
        }
    }

    /// Every category, in the order in which reports list them.
    pub fn all() -> (tools: [CacheableTool; 3])
        ensures
            tools@ == seq![CacheableTool::ReadFile, CacheableTool::ListDir, CacheableTool::GrepFiles],
    {
        [CacheableTool::ReadFile, CacheableTool::ListDir, CacheableTool::GrepFiles]
    }

    /// The name of the category in configuration files.
    pub fn config_key(self) -> (key: &'static str)
        ensures
            key@ == self.spec_config_key(),
    {
        match self {
            CacheableTool::ReadFile => "read_file",
            CacheableTool::ListDir => "list_dir",
            CacheableTool::GrepFiles => "grep_files",
        }
    }
}

/// Time-to-live of each category, in seconds; `None` where the category has
/// none of its own.
#[derive(Debug, Clone, Copy, PartialEq, Eq, Structural)]
pub struct CacheToolTtl {
    pub read_file: Option<u64>,
    pub list_dir: Option<u64>,
    pub grep_files: Option<u64>,
}

/// Time-to-live overrides as the configuration file gives them, in seconds.
#[derive(Debug, Clone, Copy, PartialEq, Eq, Structural)]
pub struct CacheToolTtlToml {
    pub read_file: Option<u64>,
    pub list_dir: Option<u64>,
    pub grep_files: Option<u64>,
}

impl Default for CacheToolTtlToml {
    fn default() -> (overrides: CacheToolTtlToml)
        ensures
            overrides == (CacheToolTtlToml { read_file: None, list_dir: None, grep_files: None }),
    {
        CacheToolTtlToml { read_file: None, list_dir: None, grep_files: None }
    }
}

/// `base` where `over` is silent, else `over`.
pub open spec fn overridden(base: Option<u64>, over: Option<u64>) -> Option<u64> {
    match over {
        Some(_) => over,
        None => base,
    }
}

impl CacheToolTtl {
    /// The time-to-live of `tool`.
    pub open spec fn spec_for_tool(&self, tool: CacheableTool) -> Option<u64> {
        match tool {
            CacheableTool::ReadFile => self.read_file,
            CacheableTool::ListDir => self.list_dir,
            CacheableTool::GrepFiles => self.grep_files,
        }
    }

    /// The time-to-live of `tool`, if it has one of its own.
    #[verifier::when_used_as_spec(spec_for_tool)]
    pub fn for_tool(&self, tool: CacheableTool) -> (ttl: Option<u64>)
        ensures
            ttl == self.spec_for_tool(tool),
    {
        match tool {
            CacheableTool::ReadFile => self.read_file,
            CacheableTool::ListDir => self.list_dir,
            CacheableTool::GrepFiles => self.grep_files,
        }
    }

    /// Takes each time-to-live that `overrides` gives and keeps the others.
    pub fn override_with(&mut self, overrides: &CacheToolTtlToml)
        ensures
            final(self).read_file == overridden(old(self).read_file, overrides.read_file),
            final(self).list_dir == overridden(old(self).list_dir, overrides.list_dir),
            final(self).grep_files == overridden(old(self).grep_files, overrides.grep_files),
    {
        if let Some(ttl) = overrides.read_file {
            self.read_file = Some(ttl);
        }
        if let Some(ttl) = overrides.list_dir {
            self.list_dir = Some(ttl);
        }
        if let Some(ttl) = overrides.grep_files {
            self.grep_files = Some(ttl);
        }
    }
}

impl Default for CacheToolTtl {
    fn default() -> (ttl: CacheToolTtl)
        ensures
            ttl == (CacheToolTtl {
                read_file: Some(DEFAULT_CACHE_READ_FILE_TTL_SECS),
                list_dir: None,
                grep_files: Some(DEFAULT_CACHE_GREP_FILES_TTL_SECS),
            }),
    {
        CacheToolTtl {
            read_file: Some(DEFAULT_CACHE_READ_FILE_TTL_SECS),
            list_dir: None,
            grep_files: Some(DEFAULT_CACHE_GREP_FILES_TTL_SECS),
        }
    }
}

/// The cache section of the configuration file.
#[derive(Debug, Clone)]
pub struct CacheConfigToml {
    pub enabled: Option<bool>,
    pub dir: Option<String>,
    pub max_bytes: Option<u64>,
    pub default_ttl_sec: Option<u64>,
    pub tool_ttl_sec: CacheToolTtlToml,
}

impl Default for CacheConfigToml {
    fn default() -> (section: CacheConfigToml)
        ensures
            section.enabled is None,
            section.dir is None,
            section.max_bytes is None,
            section.default_ttl_sec is None,
            section.tool_ttl_sec == (CacheToolTtlToml {
                read_file: None,
                list_dir: None,
                grep_files: None,
            }),
    {
        CacheConfigToml {
            enabled: None,
            dir: None,
            max_bytes: None,
            default_ttl_sec: None,
            tool_ttl_sec: CacheToolTtlToml::default(),
        }
    }
}

/// The cache policy in force.
#[derive(Debug, Clone)]
pub struct CacheConfig {
    pub enabled: bool,
    pub dir: String,
    pub max_bytes: u64,
    /// Time-to-live, in seconds, of a category without one of its own.
    pub default_ttl_secs: u64,
    pub tool_ttl: CacheToolTtl,
}

impl CacheConfig {
    /// The time-to-live of `tool` in seconds: its own, or the default.
    pub open spec fn spec_ttl_for(&self, tool: CacheableTool) -> u64 {
        match self.tool_ttl.spec_for_tool(tool) {
            Some(ttl) => ttl,
            None => self.default_ttl_secs,
        }
    }

    /// The policy that the section `cache` asks for, with the defaults where
    /// it is silent. Without a directory of its own the cache lies in
    /// `cache` below `home_dir`.
    pub fn new(home_dir: &str, cache: Option<CacheConfigToml>) -> (config: CacheConfig)
        ensures
            config.enabled == match cache {
                Some(CacheConfigToml { enabled: Some(enabled), .. }) => enabled,
                _ => true,
            },
            config.dir@ == match cache {
                Some(CacheConfigToml { dir: Some(dir), .. }) => dir@,
                _ => home_dir@ + "/"@ + DEFAULT_CACHE_DIR_NAME@,
            },
            config.max_bytes == match cache {
                Some(CacheConfigToml { max_bytes: Some(max_bytes), .. }) => max_bytes,
                _ => DEFAULT_CACHE_MAX_BYTES,
            },
            config.default_ttl_secs == match cache {
                Some(CacheConfigToml { default_ttl_sec: Some(ttl), .. }) => ttl,
                _ => DEFAULT_CACHE_DEFAULT_TTL_SECS,
            },
            config.tool_ttl == match cache {
                Some(section) => CacheToolTtl {
                    read_file: overridden(
                        Some(DEFAULT_CACHE_READ_FILE_TTL_SECS),
                        section.tool_ttl_sec.read_file,
                    ),
                    list_dir: overridden(None, section.tool_ttl_sec.list_dir),
                    grep_files: overridden(
                        Some(DEFAULT_CACHE_GREP_FILES_TTL_SECS),
                        section.tool_ttl_sec.grep_files,
                    ),
                },
                None => CacheToolTtl {
                    read_file: Some(DEFAULT_CACHE_READ_FILE_TTL_SECS),
                    list_dir: None,
                    grep_files: Some(DEFAULT_CACHE_GREP_FILES_TTL_SECS),
                },
            },
    {
        let cache = match cache {
            Some(section) => section,
            None => CacheConfigToml::default(),
        };
        let default_ttl_secs = match cache.default_ttl_sec {
            Some(ttl) => ttl,
            None => DEFAULT_CACHE_DEFAULT_TTL_SECS,
        };
        let dir = match cache.dir {
            Some(dir) => dir,
            None => String::from_str(home_dir).concat("/").concat(DEFAULT_CACHE_DIR_NAME),
        };
        let mut tool_ttl = CacheToolTtl::default();
        tool_ttl.override_with(&cache.tool_ttl_sec);
        let enabled = match cache.enabled {
            Some(enabled) => enabled,
            None => true,
        };
        let max_bytes = match cache.max_bytes {
            Some(max_bytes) => max_bytes,
            None => DEFAULT_CACHE_MAX_BYTES,
        };
        CacheConfig { enabled, dir, max_bytes, default_ttl_secs, tool_ttl }
    }

    /// The time-to-live of `tool` in seconds: its own, or the default.
    #[verifier::when_used_as_spec(spec_ttl_for)]
    pub fn ttl_for(&self, tool: CacheableTool) -> (ttl: u64)
        ensures
            ttl == self.spec_ttl_for(tool),
    {
        match self.tool_ttl.for_tool(tool) {
            Some(ttl) => ttl,
            None => self.default_ttl_secs,
        }
    }
}

} // verus!
