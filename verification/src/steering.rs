//! Steering notes: the metadata record and the file-name guard.
//!
//! The notes themselves live in per-user markdown files that the embedder
//! reads and writes; this module owns the rule that keeps a requested file
//! name inside that directory.

use vstd::prelude::*;

verus! {

/// One steering note as handed across the process boundary.
#[derive(Debug)]
pub struct SteeringFile {
    pub file_name: String,
    pub content: String,
    pub size: u64,
    pub modified_at: Option<String>,
}

/// The namespace of steering operations.
#[derive(Debug)]
pub struct SteeringManager;

/// A safe steering file name: a bare `.md` file name with a non-empty stem,
/// no path separators and no drive-prefix colon (so no absolute paths, no
/// directories, no parent components and no Windows prefixes).
pub open spec fn wf_steering_name(s: Seq<char>) -> bool {
    &&& s.len() >= 4
    &&& (forall|i: int| 0 <= i < s.len() ==> #[trigger] s[i] != '/' && s[i] != '\\' && s[i] != ':')
    &&& s.subrange(s.len() - 3, s.len() as int) == ".md"@
}

impl SteeringManager {
    /// Guards a requested steering file name against path traversal: only a
    /// bare markdown file name is accepted.
    pub fn validate_file_name(file_name: &str) -> (r: Result<(), String>)
        ensures
            r is Ok <==> wf_steering_name(file_name@),
    {
        let len = file_name.unicode_len();
        if len == 0 {
            return Err("文件名不能为空".to_owned());
        }
        if file_name.get_char(0) == '/' {
            return Err("不允许使用绝对路径".to_owned());
        }
        let mut i: usize = 0;
        while i < len
            invariant
                0 <= i <= len,
                len == file_name@.len(),
                forall|j: int|
                    0 <= j < i ==> #[trigger] file_name@[j] != '/' && file_name@[j] != '\\'
                        && file_name@[j] != ':',
            decreases len - i,
        {
            let c = file_name.get_char(i);
            if c == ':' {
                return Err("不允许使用路径前缀".to_owned());
            }
            if c == '/' || c == '\\' {
                return Err("文件名不能包含目录路径".to_owned());
            }
            i = i + 1;
        }
        if len < 4 {
            return Err("文件必须是 .md 格式".to_owned());
        }
        proof {
            reveal_strlit(".md");
        }
        if file_name.get_char(len - 3) != '.' || file_name.get_char(len - 2) != 'm'
            || file_name.get_char(len - 1) != 'd' {
            proof {
                if file_name@.subrange(len - 3 as int, len as int) == ".md"@ {
                    assert(file_name@[len - 3 as int] == file_name@.subrange(
                        len - 3 as int,
                        len as int,
                    )[0]);
                    assert(file_name@[len - 2 as int] == file_name@.subrange(
                        len - 3 as int,
                        len as int,
                    )[1]);
                    assert(file_name@[len - 1 as int] == file_name@.subrange(
                        len - 3 as int,
                        len as int,
                    )[2]);
                }
            }
            return Err("文件必须是 .md 格式".to_owned());
        }
        proof {
            assert(file_name@.subrange(len - 3 as int, len as int) =~= ".md"@);
        }
        Ok(())
    }
}

} // verus!
