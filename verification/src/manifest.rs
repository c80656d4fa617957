//! The manifest's records: a tracked folder name paired with the shell
//! command that installs it. The manifest itself is an ordered sequence of
//! these records; duplicates are allowed and kept.

use vstd::prelude::*;
use vstd::string::StrSliceExecFns;
use crate::text::chars_of;

verus! {

/// One manifest entry: the name of a cache subdirectory and the install
/// command recorded for it.
pub struct Dependency {
    pub folder_name: String,
    pub install_command: String,
}

/// The mathematical content of a `Dependency`: its two fields as character
/// sequences.
pub ghost struct DepView {
    pub folder_name: Seq<char>,
    pub install_command: Seq<char>,
}

impl View for Dependency {
    type V = DepView;

    open spec fn view(&self) -> DepView {
        DepView { folder_name: self.folder_name@, install_command: self.install_command@ }
    }
}

impl DeepView for Dependency {
    type V = DepView;

    open spec fn deep_view(&self) -> DepView {
        self.view()
    }
}

/// An ASCII whitespace character, as trimmed from an operator's answer.
pub open spec fn is_ws(c: char) -> bool {
    c == ' ' || c == '\t' || c == '\n' || c == '\r'
}

/// `s` without its trailing whitespace.
pub open spec fn trim_tail(s: Seq<char>) -> Seq<char>
    decreases s.len(),
{
    if s.len() == 0 {
        s
    } else if is_ws(s.last()) {
        trim_tail(s.drop_last())
    } else {
        s
    }
}

/// Whether `c` is whitespace that trimming removes.
fn is_ws_char(c: char) -> (b: bool)
    ensures
        b == is_ws(c),
{
    c == ' ' || c == '\t' || c == '\n' || c == '\r'
}

/// `s` with trailing spaces, tabs and line ends removed — how an answer
/// read from standard input is stored.
pub fn trim_trailing(s: &str) -> (r: String)
    ensures
        r@ == trim_tail(s@),
{
    let cs = chars_of(s);
    let mut end: usize = cs.len();
    proof {
        assert(s@.take(cs@.len() as int) =~= s@);
    }
    while end > 0 && is_ws_char(cs[end - 1])
        invariant
            end <= cs.len(),
            cs@ == s@,
            trim_tail(s@) == trim_tail(s@.take(end as int)),
        decreases end,
    {
        proof {
            assert(s@.take(end as int).last() == s@[end - 1]);
            assert(s@.take(end as int).drop_last() =~= s@.take(end - 1));
        }
        end = end - 1;
    }
    proof {
        if end > 0 {
            assert(s@.take(end as int).last() == s@[end - 1]);
            assert(!is_ws(s@.take(end as int).last()));
        }
        assert(trim_tail(s@.take(end as int)) == s@.take(end as int));
        assert(s@.subrange(0, end as int) =~= s@.take(end as int));
    }
    let kept = s.substring_char(0, end);
    kept.to_owned()
}

/// The manifest the recording command builds: one record per tracked
/// folder, in enumeration order, pairing the folder's name with the
/// operator's answer for it, the answer trimmed of trailing whitespace.
pub fn build_manifest(folders: &Vec<String>, answers: &Vec<String>) -> (r: Vec<Dependency>)
    requires
        folders.len() == answers.len(),
    ensures
        r@.len() == folders@.len(),
        forall|k: int|
            0 <= k < r@.len() ==> r@[k]@.folder_name == folders@[k]@ && r@[k]@.install_command
                == trim_tail(answers@[k]@),
{
    let mut r: Vec<Dependency> = Vec::new();
    let mut i: usize = 0;
    while i < folders.len()
        invariant
            folders.len() == answers.len(),
            i <= folders.len(),
            r@.len() == i,
            forall|k: int|
                0 <= k < i ==> r@[k]@.folder_name == folders@[k]@ && r@[k]@.install_command
                    == trim_tail(answers@[k]@),
        decreases folders.len() - i,
    {
        let d = Dependency {
            folder_name: folders[i].clone(),
            install_command: trim_trailing(answers[i].as_str()),
        };
        r.push(d);
        i = i + 1;
    }
    r
}

} // verus!
