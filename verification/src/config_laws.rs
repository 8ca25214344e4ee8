//! What is said of a configuration file, and which font is read from a match,
//! told by how the texts are made up.
use vstd::prelude::*;

use crate::config;
use crate::config::{Config, ConfigFile};
use crate::text;

verus! {

/// A file that cannot be read, is no text or is no configuration is warned of,
/// with the program, the path and the reason. No other file is.
pub proof fn warnings_tell_the_reason(
    program: Seq<char>,
    path: Seq<char>,
    err: String,
    config: Config,
)
    ensures
        config::warning_for(program, path, ConfigFile::NoPath) is None,
        config::warning_for(program, path, ConfigFile::Missing) is None,
        config::warning_for(program, path, ConfigFile::Parsed(config)) is None,
        config::warning_for(program, path, ConfigFile::Unreadable(err)) == Some(
            program + ": could not read "@ + path + ": "@ + err@,
        ),
        config::warning_for(program, path, ConfigFile::NotText(err)) == Some(
            program + ": "@ + path + " is not valid UTF-8: "@ + err@,
        ),
        config::warning_for(program, path, ConfigFile::Malformed(err)) == Some(
            program + ": could not parse "@ + path + ": "@ + err@,
        ),
{
}

/// The default configuration has no family and no size of its own.
pub proof fn defaults_say_nothing(config: Config)
    ensures
        config::is_default(config) <==> config.font.mono_family@.len() == 0
            && config.font.mono_text_size is None,
{
}

/// The family in a match is what stands before the first colon, trimmed, and all
/// of it where there is no colon. White space around the match makes no
/// difference.
pub proof fn families_stand_before_the_colon(family: Seq<char>, rest: Seq<char>, printed: Seq<char>)
    requires
        forall|i: int| 0 <= i < family.len() ==> #[trigger] family[i] != ':',
    ensures
        text::trim(printed) == family + seq![':'] + rest ==> config::family_in(printed)
            == text::trim(family),
        text::trim(printed) == family ==> config::family_in(printed) == text::trim(family),
{
    let n = family.len() as int;
    let line = family + seq![':'] + rest;
    assert forall|i: int| 0 <= i < n implies line[i] != ':' by {
        assert(line[i] == family[i]);
    }
    assert(line[n] == ':');
    text::lemma_find_char_is(line, ':', n);
    assert(line.take(n) =~= family);
    text::lemma_find_char(family, ':');
    if text::find_char(family, ':') < n {
        assert(family[text::find_char(family, ':')] == ':');
    }
    assert(family.take(n) =~= family);
}

} // verus!
