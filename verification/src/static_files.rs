//! Configuration data for a static-files handler.
//!
//! [`StaticFilesConf`] carries the configuration-file settings and
//! [`StaticFilesOpt`] the command-line options; options present on the
//! command line overwrite the configured settings, field by field, through
//! [`StaticFilesConf::merge_with_opt`].

use vstd::prelude::*;

verus! {

/// A compression scheme that pre-compressed files may use, named after the
/// file extension looked for: `gz`, `zz`, `z`, `br` or `zst`.
#[derive(Debug, Clone, Copy, PartialEq, Eq, Structural)]
pub enum CompressionAlgorithm {
    /// gzip, extension `gz`.
    Gzip,
    /// zlib deflate, extension `zz`.
    ZlibDeflate,
    /// compress, extension `z`.
    Compress,
    /// Brotli, extension `br`.
    Brotli,
    /// Zstandard, extension `zst`.
    Zstandard,
}

/// Command-line options of the static-files module. Every field is optional:
/// an absent option leaves the configured setting alone.
#[derive(Debug, Default)]
pub struct StaticFilesOpt {
    /// The root directory.
    pub root: Option<String>,
    /// Redirect `/file%2e.txt` to `/file.txt` and `/dir` to `/dir/`.
    pub canonicalize_uri: Option<bool>,
    /// Index files to look for when displaying a directory.
    pub index_file: Option<Vec<String>>,
    /// URI path of the page to show instead of the default Not Found page.
    pub page_404: Option<String>,
    /// File extensions to check for pre-compressed versions of a file.
    pub precompressed: Option<Vec<CompressionAlgorithm>>,
}

/// Configuration-file settings of the static-files module.
#[derive(Debug)]
pub struct StaticFilesConf {
    /// The root directory.
    pub root: Option<String>,
    /// Redirect `/file%2e.txt` to `/file.txt` and `/dir` to `/dir/`.
    pub canonicalize_uri: bool,
    /// When `canonicalize_uri` is used, prefix redirect targets with this
    /// string; useful when the handler serves a sub-path of the webspace.
    pub redirect_prefix: Option<String>,
    /// Index files to look for in a directory.
    pub index_file: Vec<String>,
    /// URI path of the page to show instead of the default Not Found page.
    pub page_404: Option<String>,
    /// File extensions to check for pre-compressed versions of a file.
    pub precompressed: Vec<CompressionAlgorithm>,
}

impl StaticFilesConf {
    /// Merges the command-line options into this configuration: every option
    /// present overwrites the corresponding setting, every absent one leaves
    /// it untouched. The redirect prefix has no command-line counterpart and
    /// always stays.
    pub fn merge_with_opt(&mut self, opt: StaticFilesOpt)
        ensures
            final(self).root == (if opt.root is Some {
                opt.root
            } else {
                old(self).root
            }),
            final(self).canonicalize_uri == (match opt.canonicalize_uri {
                Option::Some(c) => c,
                Option::None => old(self).canonicalize_uri,
            }),
            final(self).redirect_prefix == old(self).redirect_prefix,
            final(self).index_file == (match opt.index_file {
                Option::Some(f) => f,
                Option::None => old(self).index_file,
            }),
            final(self).page_404 == (if opt.page_404 is Some {
                opt.page_404
            } else {
                old(self).page_404
            }),
            final(self).precompressed == (match opt.precompressed {
                Option::Some(p) => p,
                Option::None => old(self).precompressed,
            }),
    {
        if opt.root.is_some() {
            self.root = opt.root;
        }
        match opt.canonicalize_uri {
            Some(canonicalize_uri) => {
                self.canonicalize_uri = canonicalize_uri;
            },
            None => {},
        }
        match opt.index_file {
            Some(index_file) => {
                self.index_file = index_file;
            },
            None => {},
        }
        if opt.page_404.is_some() {
            self.page_404 = opt.page_404;
        }
        match opt.precompressed {
            Some(precompressed) => {
                self.precompressed = precompressed;
            },
            None => {},
        }
    }
}

impl Default for StaticFilesConf {
    /// The default configuration: canonicalize URIs, look for `index.html`,
    /// and leave everything else unset.
    fn default() -> (r: Self)
        ensures
            r.root is None,
            r.canonicalize_uri == true,
            r.redirect_prefix is None,
            r.index_file@.len() == 1,
            r.index_file@[0]@ == "index.html"@,
            r.page_404 is None,
            r.precompressed@.len() == 0,
    {
        let mut index_file: Vec<String> = Vec::new();
        index_file.push("index.html".to_owned());
        StaticFilesConf {
            root: None,
            canonicalize_uri: true,
            redirect_prefix: None,
            index_file,
            page_404: None,
            precompressed: Vec::new(),
        }
    }
}

} // verus!
