//! A module for trying out the framework: a long message to test line-wrapping, and a command
//! whose handler panics, to test the catching of panics.

use vstd::prelude::*;
use crate::framework::bot_cmd::{BotCmdAuthLvl, BotCmdResult};
use crate::framework::modl_sys::{mk_module, Module};
use crate::framework::reaction::Reaction;
use crate::modules::default::declares_command;

verus! {

/// A long text of filler.
pub const LOREM_IPSUM_TEXT: &'static str = "Lorem ipsum dolor sit amet, consectetur adipiscing elit. Integer et tincidunt nibh. Nullam aliquet imperdiet cursus. Duis at turpis mollis, iaculis quam sed, efficitur arcu. Sed vel massa sit amet magna efficitur hendrerit. Donec auctor auctor ligula nec semper. Nulla a odio suscipit, suscipit velit in, ullamcorper velit. In bibendum pulvinar ipsum. Fusce elementum maximus mattis. Donec sed mauris nec ante eleifend dapibus non faucibus massa. Vivamus a auctor ligula. Cras hendrerit, velit sit amet sagittis placerat, elit elit feugiat quam, vel aliquet ligula elit sit amet nibh. Fusce dignissim, orci vitae sodales ornare, lacus risus facilisis sem, a imperdiet lectus massa at velit. Etiam sed magna congue, pulvinar diam quis, facilisis risus. Sed semper, lectus vulputate luctus fermentum, quam lacus consectetur arcu, ac mollis ipsum metus vel nunc. Ut posuere arcu enim, id dictum arcu sagittis in. Mauris a lectus nec ligula eleifend rutrum. Class aptent taciti sociosqu ad litora torquent per conubia massa nunc.";

/// The test module: the commands `test-line-wrap` and `test-panic-catching`, both for
/// administrators.
pub fn mk() -> (r: Module)
    ensures
        r.name_view() == "test"@,
        r.features_view().len() == 2,
        declares_command(r.features_view()[0], "test-line-wrap"@, ""@,
            "Request a long message from the bot, to test its line-wrapping function."@, BotCmdAuthLvl::Admin),
        declares_command(r.features_view()[1], "test-panic-catching"@, ""@,
            "This command's handler function panics, to test the bot framework's panic-catching mechanism."@,
            BotCmdAuthLvl::Admin),
{
    proof {
        reveal_strlit("test-line-wrap");
        reveal_strlit("test-panic-catching");
    }
    let b = mk_module("test");
    let b = b.command("test-line-wrap", "", "Request a long message from the bot, to test its line-wrapping function.",
        BotCmdAuthLvl::Admin);
    let b = b.command("test-panic-catching", "",
        "This command's handler function panics, to test the bot framework's panic-catching mechanism.",
        BotCmdAuthLvl::Admin);
    let m = b.end();
    proof {
        let fs = m.features_view();
        assert(fs[0] == fs.drop_last().last());
    }
    m
}

/// The reaction to `test-line-wrap`: a reply of [`LOREM_IPSUM_TEXT`], long enough to need
/// wrapping.
pub fn test_line_wrap() -> (r: BotCmdResult)
    ensures
        r matches BotCmdResult::Done(Reaction::Reply(s)) && s@ == LOREM_IPSUM_TEXT@,
{
    BotCmdResult::Done(Reaction::Reply(LOREM_IPSUM_TEXT.to_owned()))
}

} // verus!
