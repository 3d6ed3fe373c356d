//! Settings of a web server that exposes a single directory with static content.

use vstd::prelude::*;

verus! {

/// Command line options
#[derive(Debug)]
pub struct StaticRootAppOpt {
    /// Addresses and ports to listen on, e.g. "127.0.0.1:8080".
    pub listen: Option<Vec<String>>,
    /// Compression level to be used for dynamic compression (omit to disable compression).
    pub compression_level: Option<u32>,
}

/// Application-specific configuration settings
#[derive(Debug)]
pub struct StaticRootAppConf {
    /// List of address/port combinations to listen on, e.g. "127.0.0.1:8080".
    pub listen: Vec<String>,
    /// Compression level to be used for dynamic compression (omit to disable compression).
    pub compression_level: Option<u32>,
}

/// The texts in a list of strings.
pub open spec fn texts(list: Seq<String>) -> Seq<Seq<char>> {
    Seq::new(list.len(), |i: int| list[i]@)
}

impl Default for StaticRootAppConf {
    fn default() -> (r: StaticRootAppConf)
        ensures
            texts(r.listen@) == seq!["127.0.0.1:8080"@, "[::1]:8080"@],
            r.compression_level is None,
            r.listen@.len() == 2,
            r.listen@[0]@ == "127.0.0.1:8080"@,
            r.listen@[1]@ == "[::1]:8080"@,
    {
        let mut listen: Vec<String> = Vec::new();
        listen.push("127.0.0.1:8080".to_owned());
        listen.push("[::1]:8080".to_owned());
        assert(texts(listen@) =~= seq!["127.0.0.1:8080"@, "[::1]:8080"@]);
        StaticRootAppConf { listen, compression_level: None }
    }
}

impl StaticRootAppConf {
    /// Applies the command line options. What they do not set stays as configured.
    pub fn merge_with_opt(self, opt: StaticRootAppOpt) -> (r: StaticRootAppConf)
        ensures
            r.listen == (match opt.listen {
                Some(listen) => listen,
                None => self.listen,
            }),
            r.compression_level == (match opt.compression_level {
                Some(level) => Some(level),
                None => self.compression_level,
            }),
            opt.listen is None ==> r.listen == self.listen,
            opt.listen matches Some(listen) ==> r.listen == listen,
            opt.compression_level is None ==> r.compression_level == self.compression_level,
            opt.compression_level is Some ==> r.compression_level == opt.compression_level,
    {
        StaticRootAppConf {
            listen: match opt.listen {
                Some(listen) => listen,
                None => self.listen,
            },
            compression_level: match opt.compression_level {
                Some(level) => Some(level),
                None => self.compression_level,
            },
        }
    }
}

} // verus!
