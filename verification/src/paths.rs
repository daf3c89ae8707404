//! The names of the files that the application keeps.

use vstd::prelude::*;

verus! {

/// The directory of the application, in whichever directory the system has for
/// such things. Renaming it would lose what users have.
pub const IDENTIFIER: &'static str = "net.deepnest.rust";

/// A file that the application keeps.
#[derive(Clone, Copy, PartialEq, Eq, Structural, Debug)]
pub enum KeptFile {
    Config,
    BestResult,
    ShapeStore,
    Log,
}

/// Where a kept file is: below the directory for settings or the one for local
/// data, in the application's own, perhaps in a directory of that.
#[derive(Clone, Copy, Debug)]
pub struct Place {
    /// What the directory is called in a message.
    pub base: &'static str,
    pub sub: Option<&'static str>,
    pub name: &'static str,
}

/// Where a kept file is.
pub fn place_of(file: KeptFile) -> (r: Place)
    ensures
        r.base@ == if file == KeptFile::Log {
            "local data"@
        } else {
            "config"@
        },
        match r.sub {
            Some(sub) => file == KeptFile::Log && sub@ == "logs"@,
            None => file != KeptFile::Log,
        },
        r.name@ == match file {
            KeptFile::Config => "config.json"@,
            KeptFile::BestResult => "best_result.json"@,
            KeptFile::ShapeStore => "shapes.json"@,
            KeptFile::Log => "rustynesting.log"@,
        },
{
    match file {
        KeptFile::Config => Place { base: "config", sub: None, name: "config.json" },
        KeptFile::BestResult => Place { base: "config", sub: None, name: "best_result.json" },
        KeptFile::ShapeStore => Place { base: "config", sub: None, name: "shapes.json" },
        KeptFile::Log => Place {
            base: "local data",
            sub: Some("logs"),
            name: "rustynesting.log",
        },
    }
}

/// The names of the directories to go down from the system's directory, which
/// some systems do not have.
pub fn dir_from(has_base: bool, what: &str, sub: Option<&str>) -> (r: Result<Vec<String>, String>)
    ensures
        match r {
            Ok(names) => {
                &&& has_base
                &&& names@.len() == if sub is Some {
                    2nat
                } else {
                    1
                }
                &&& names@[0]@ == IDENTIFIER@
                &&& sub matches Some(s) ==> names@[1]@ == s@
            },
            Err(message) => !has_base && message@ == "this system has no "@ + what@
                + " directory"@,
        },
{
    if !has_base {
        let mut message = "this system has no ".to_owned();
        message.append(what);
        message.append(" directory");
        return Err(message);
    }
    let mut names: Vec<String> = Vec::new();
    names.push(IDENTIFIER.to_owned());
    if let Some(s) = sub {
        names.push(s.to_owned());
    }
    Ok(names)
}

/// Each kept file has a place of its own, and its directory is named for this
/// program.
pub proof fn law_files_are_kept_apart(
    a: KeptFile,
    b: KeptFile,
    at: Place,
    other: Place,
    has_base: bool,
    what: &str,
    sub: Option<&str>,
    r: Result<Vec<String>, String>,
)
    requires
        call_ensures(place_of, (a,), at),
        call_ensures(place_of, (b,), other),
        call_ensures(dir_from, (has_base, what, sub), r),
    ensures
        at.name@ == other.name@ ==> a == b,
        at.sub is Some <==> a == KeptFile::Log,
        r is Ok <==> has_base,
        r matches Ok(names) ==> names@.len() == (if sub is Some {
            2int
        } else {
            1
        }) && names@[0]@ == "net.deepnest.rust"@,
{
    reveal_strlit("config.json");
    reveal_strlit("best_result.json");
    reveal_strlit("shapes.json");
    reveal_strlit("rustynesting.log");
    assert("config.json"@[0] == 'c' && "best_result.json"@[0] == 'b' && "shapes.json"@[0] == 's'
        && "rustynesting.log"@[0] == 'r');
}

} // verus!
