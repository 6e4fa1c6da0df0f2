//! Project configuration values.

use vstd::prelude::*;

verus! {

/// A project's configuration fields.
pub struct Config {
    pub project_type: u8,
    pub name: String,
    pub description: String,
    pub major_version: u8,
    pub minor_version: u8,
    pub url: String,
    pub finished: bool,
    pub author: String,
    pub extra_data: String,
}

impl Config {
    /// The default configuration.
    pub fn new() -> (r: Config)
        ensures
            r.project_type == 0,
            r.name@ == "unknown"@,
            r.description@ == Seq::<char>::empty(),
            r.major_version == 0,
            r.minor_version == 0,
            r.url@ == Seq::<char>::empty(),
            r.finished,
            r.author@ == Seq::<char>::empty(),
            r.extra_data@ == Seq::<char>::empty(),
    {
        Config {
            project_type: 0,
            name: "unknown".to_owned(),
            description: String::new(),
            major_version: 0,
            minor_version: 0,
            url: String::new(),
            finished: true,
            author: String::new(),
            extra_data: String::new(),
        }
    }

    /// Reads a configuration text. The scan splits each line at the first
    /// `=` and its quoted value; lines that do not parse are carried along
    /// as extra data. No field is extracted into the result yet: the scan
    /// always succeeds with the default configuration.
    pub fn construct(src: &str) -> (r: Result<Config, String>)
        ensures
            r is Ok,
            ({
                let c = r->Ok_0;
                &&& c.project_type == 0
                &&& c.name@ == "unknown"@
                &&& c.description@ == Seq::<char>::empty()
                &&& c.major_version == 0
                &&& c.minor_version == 0
                &&& c.url@ == Seq::<char>::empty()
                &&& c.finished
                &&& c.author@ == Seq::<char>::empty()
                &&& c.extra_data@ == Seq::<char>::empty()
            }),
    {
        let config = Config::new();
        let chars = crate::text::str_to_chars(src);
        let n = chars.len();
        // 0: property name; 1: open quote; 10: resynchronize to the next line
        let mut state: u8 = 0;
        let mut lbuffer: Vec<char> = Vec::new();
        let mut rbuffer: Vec<char> = Vec::new();
        let mut extra_data: Vec<char> = Vec::new();

        let mut i: usize = 0;
        while i < n
            invariant
                i <= n,
            decreases n - i,
        {
            let c = chars[i];
            if state == 0 {
                if c == '=' {
                    state = 1;
                } else if c == '\n' {
                    extra_data.push('\n');
                    let mut j: usize = 0;
                    while j < lbuffer.len()
                        decreases lbuffer.len() - j,
                    {
                        extra_data.push(lbuffer[j]);
                        j = j + 1;
                    }
                    lbuffer = Vec::new();
                } else {
                    lbuffer.push(c);
                }
            } else if state == 1 {
                if c == '"' {
                    state = 2;
                    rbuffer = Vec::new();
                } else if c == '\n' {
                    extra_data.push('\n');
                    let mut j: usize = 0;
                    while j < lbuffer.len()
                        decreases lbuffer.len() - j,
                    {
                        extra_data.push(lbuffer[j]);
                        j = j + 1;
                    }
                    extra_data.push('=');
                    lbuffer = Vec::new();
                } else {
                    state = 10;
                    rbuffer = Vec::new();
                }
            } else if state == 10 {
                if c == '\n' {
                    extra_data.push('\n');
                    let mut j: usize = 0;
                    while j < lbuffer.len()
                        decreases lbuffer.len() - j,
                    {
                        extra_data.push(lbuffer[j]);
                        j = j + 1;
                    }
                    let mut j2: usize = 0;
                    while j2 < rbuffer.len()
                        decreases rbuffer.len() - j2,
                    {
                        extra_data.push(rbuffer[j2]);
                        j2 = j2 + 1;
                    }
                    lbuffer = Vec::new();
                    rbuffer = Vec::new();
                } else {
                    rbuffer.push(c);
                }
            }
            i = i + 1;
        }

        Ok(config)
    }
}

} // verus!
