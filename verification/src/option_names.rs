//! What the options are called.

use vstd::prelude::*;

use crate::args;
use crate::args::Opt;

verus! {

/// Every option goes by its own names, and no name is of two options.
pub proof fn options_have_their_names(s: Seq<char>)
    ensures
        args::opt_named(s) == Some(Opt::Model) <==> s == "-m"@,
        args::opt_named(s) == Some(Opt::Prompt) <==> s == "-p"@,
        args::opt_named(s) == Some(Opt::PromptFile) <==> s == "-f"@ || s == "--prompt-file"@,
        args::opt_named(s) == Some(Opt::Tokens) <==> s == "--tokens"@,
        args::opt_named(s) == Some(Opt::Count) <==> s == "-n"@,
        args::opt_named(s) == Some(Opt::Ctx) <==> s == "--ctx"@,
        args::opt_named(s) == Some(Opt::NoBos) <==> s == "--no-bos"@,
        args::opt_named(s) == Some(Opt::Bos) <==> s == "--bos"@,
        args::opt_named(s) == Some(Opt::DumpLogits) <==> s == "--dump-logits"@,
        args::opt_named(s) == Some(Opt::TeacherForce) <==> s == "--teacher-force"@,
        args::opt_named(s) == Some(Opt::DecodeConsistency) <==> s == "--decode-consistency"@,
        args::opt_named(s) == Some(Opt::RowsConsistency) <==> s == "--rows-consistency"@,
        args::opt_named(s) == Some(Opt::Capture) <==> s == "--dspark-capture"@,
        args::opt_named(s) == Some(Opt::Chat) <==> s == "--chat"@,
        args::opt_named(s) == Some(Opt::System) <==> s == "--system"@,
        args::opt_named(s) == Some(Opt::Temp) <==> s == "--temp"@,
        args::opt_named(s) == Some(Opt::TopP) <==> s == "--top-p"@,
        args::opt_named(s) == Some(Opt::MinP) <==> s == "--min-p"@,
        args::opt_named(s) == Some(Opt::Seed) <==> s == "--seed"@,
        args::opt_named(s) == Some(Opt::JinjaChat) <==> s == "--jinja-chat"@,
        args::opt_named(s) == Some(Opt::Version) <==> s == "-V"@ || s == "--version"@,
        args::opt_named(s) == Some(Opt::Help) <==> s == "-h"@ || s == "--help"@,
{
    reveal_strlit("-m");
    assert("-m"@.len() == 2 && "-m"@[1] == 'm');
    reveal_strlit("-p");
    assert("-p"@.len() == 2 && "-p"@[1] == 'p');
    reveal_strlit("-f");
    assert("-f"@.len() == 2 && "-f"@[1] == 'f');
    reveal_strlit("--prompt-file");
    assert("--prompt-file"@.len() == 13 && "--prompt-file"@[2] == 'p');
    reveal_strlit("--tokens");
    assert("--tokens"@.len() == 8 && "--tokens"@[2] == 't');
    reveal_strlit("-n");
    assert("-n"@.len() == 2 && "-n"@[1] == 'n');
    reveal_strlit("--ctx");
    assert("--ctx"@.len() == 5 && "--ctx"@[2] == 'c');
    reveal_strlit("--no-bos");
    assert("--no-bos"@.len() == 8 && "--no-bos"@[2] == 'n');
    reveal_strlit("--bos");
    assert("--bos"@.len() == 5 && "--bos"@[2] == 'b');
    reveal_strlit("--dump-logits");
    assert("--dump-logits"@.len() == 13 && "--dump-logits"@[2] == 'd');
    reveal_strlit("--teacher-force");
    assert("--teacher-force"@.len() == 15);
    reveal_strlit("--decode-consistency");
    assert("--decode-consistency"@.len() == 20);
    reveal_strlit("--rows-consistency");
    assert("--rows-consistency"@.len() == 18);
    reveal_strlit("--dspark-capture");
    assert("--dspark-capture"@.len() == 16);
    reveal_strlit("--chat");
    assert("--chat"@.len() == 6 && "--chat"@[2] == 'c');
    reveal_strlit("--system");
    assert("--system"@.len() == 8 && "--system"@[2] == 's');
    reveal_strlit("--temp");
    assert("--temp"@.len() == 6 && "--temp"@[2] == 't');
    reveal_strlit("--top-p");
    assert("--top-p"@.len() == 7 && "--top-p"@[2] == 't');
    reveal_strlit("--min-p");
    assert("--min-p"@.len() == 7 && "--min-p"@[2] == 'm');
    reveal_strlit("--seed");
    assert("--seed"@.len() == 6 && "--seed"@[2] == 's');
    reveal_strlit("--jinja-chat");
    assert("--jinja-chat"@.len() == 12);
    reveal_strlit("-V");
    assert("-V"@.len() == 2 && "-V"@[1] == 'V');
    reveal_strlit("--version");
    assert("--version"@.len() == 9);
    reveal_strlit("-h");
    assert("-h"@.len() == 2 && "-h"@[1] == 'h');
    reveal_strlit("--help");
    assert("--help"@.len() == 6 && "--help"@[2] == 'h');
}

} // verus!
