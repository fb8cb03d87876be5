//! The loading spinner: a message rewritten with a random line every few seconds
//! while something slow runs.

use vstd::prelude::*;
use crate::random::random_below;

verus! {

/// The lines the spinner shows.
pub open spec fn thinking_messages_spec() -> Seq<Seq<char>> {
    lines_0() + lines_1() + lines_2() + lines_3() + lines_4() + lines_5() + lines_6() + lines_7() + lines_8()
}

/// The spinner lines, in groups of sixteen.
pub open spec fn lines_0() -> Seq<Seq<char>> {
    seq![
        "Fetching data..."@,
        "I'm thinking..."@,
        "Still thinking..."@,
        "Analyzing data..."@,
        "Getting snacks..."@,
        "Reticulating splines..."@,
        "Generating witty dialog..."@,
        "Swapping time and space..."@,
        "Spinning violently around the y-axis..."@,
        "Tokenizing real life..."@,
        "Bending the spoon..."@,
        "Filtering morale..."@,
        "Gathering purple hippos..."@,
        "We need a new fuse..."@,
        "640K ought to be enough for anybody"@,
        "The architects are still drafting..."@,
    ]
}

fn push_lines_0(v: &mut Vec<&'static str>)
    ensures
        final(v)@.map_values(|m: &str| m@) == old(v)@.map_values(|m: &str| m@) + lines_0(),
{
    let ghost before = v@.map_values(|m: &str| m@);
    v.push("Fetching data...");
    v.push("I'm thinking...");
    v.push("Still thinking...");
    v.push("Analyzing data...");
    v.push("Getting snacks...");
    v.push("Reticulating splines...");
    v.push("Generating witty dialog...");
    v.push("Swapping time and space...");
    v.push("Spinning violently around the y-axis...");
    v.push("Tokenizing real life...");
    v.push("Bending the spoon...");
    v.push("Filtering morale...");
    v.push("Gathering purple hippos...");
    v.push("We need a new fuse...");
    v.push("640K ought to be enough for anybody");
    v.push("The architects are still drafting...");
    assert(v@.map_values(|m: &str| m@) =~= before + lines_0());
}

pub open spec fn lines_1() -> Seq<Seq<char>> {
    seq![
        "Breeding some more bits..."@,
        "Waiting for the elves to clock in..."@,
        "Testing patience..."@,
        "Encouraging the penguins..."@,
        "Sharpening the knives..."@,
        "Answering questions..."@,
        "Reconfoobling energymotron..."@,
        "It's not you. It's me."@,
        "Counting backwards from Infinity..."@,
        "Don't panic..."@,
        "Embiggening Prototypes..."@,
        "Creating time-loop inversion field..."@,
        "Spinning the wheel of fortune..."@,
        "Loading the enchanted bunny..."@,
        "Computing chance of success..."@,
        "Looking for exact change..."@,
    ]
}

fn push_lines_1(v: &mut Vec<&'static str>)
    ensures
        final(v)@.map_values(|m: &str| m@) == old(v)@.map_values(|m: &str| m@) + lines_1(),
{
    let ghost before = v@.map_values(|m: &str| m@);
    v.push("Breeding some more bits...");
    v.push("Waiting for the elves to clock in...");
    v.push("Testing patience...");
    v.push("Encouraging the penguins...");
    v.push("Sharpening the knives...");
    v.push("Answering questions...");
    v.push("Reconfoobling energymotron...");
    v.push("It's not you. It's me.");
    v.push("Counting backwards from Infinity...");
    v.push("Don't panic...");
    v.push("Embiggening Prototypes...");
    v.push("Creating time-loop inversion field...");
    v.push("Spinning the wheel of fortune...");
    v.push("Loading the enchanted bunny...");
    v.push("Computing chance of success...");
    v.push("Looking for exact change...");
    assert(v@.map_values(|m: &str| m@) =~= before + lines_1());
}

pub open spec fn lines_2() -> Seq<Seq<char>> {
    seq![
        "Pulling out my checkbook..."@,
        "I feel like im supposed to be loading something..."@,
        "Getting back on track..."@,
        "Should have used a compiled language..."@,
        "Adjusting flux capacitor..."@,
        "Shoving sloths..."@,
        "I swear it's almost done."@,
        "Let's take a mindfulness minute..."@,
        "Listening for the sound of one hand clapping..."@,
        "Keeping all the 1's and removing all the 0's..."@,
        "Putting the icing on the cake. The cake is not a lie..."@,
        "Cleaning off the cobwebs..."@,
        "Making sure all the i's have dots..."@,
        "Aligning dilithium crystals..."@,
        "Connecting Neurotoxin Storage Tank..."@,
        "Granting wishes..."@,
    ]
}

fn push_lines_2(v: &mut Vec<&'static str>)
    ensures
        final(v)@.map_values(|m: &str| m@) == old(v)@.map_values(|m: &str| m@) + lines_2(),
{
    let ghost before = v@.map_values(|m: &str| m@);
    v.push("Pulling out my checkbook...");
    v.push("I feel like im supposed to be loading something...");
    v.push("Getting back on track...");
    v.push("Should have used a compiled language...");
    v.push("Adjusting flux capacitor...");
    v.push("Shoving sloths...");
    v.push("I swear it's almost done.");
    v.push("Let's take a mindfulness minute...");
    v.push("Listening for the sound of one hand clapping...");
    v.push("Keeping all the 1's and removing all the 0's...");
    v.push("Putting the icing on the cake. The cake is not a lie...");
    v.push("Cleaning off the cobwebs...");
    v.push("Making sure all the i's have dots...");
    v.push("Aligning dilithium crystals...");
    v.push("Connecting Neurotoxin Storage Tank...");
    v.push("Granting wishes...");
    assert(v@.map_values(|m: &str| m@) =~= before + lines_2());
}

pub open spec fn lines_3() -> Seq<Seq<char>> {
    seq![
        "Spinning the hamster…"@,
        "99 bottles of beer on the wall..."@,
        "Stay awhile and listen..."@,
        "Convincing AI not to turn evil..."@,
        "What's that smell?"@,
        "Constructing additional pylons..."@,
        "Roping some seaturtles..."@,
        "Locating Jebediah Kerman..."@,
        "We are not liable for any broken screens as a result of waiting."@,
        "turning it off and on again..."@,
        "Well, this is embarrassing."@,
        "Whoops..."@,
        "Shhh...."@,
        "Didn't know paint dried so quickly."@,
        "Walking several dogs..."@,
        "Organizing socks..."@,
    ]
}

fn push_lines_3(v: &mut Vec<&'static str>)
    ensures
        final(v)@.map_values(|m: &str| m@) == old(v)@.map_values(|m: &str| m@) + lines_3(),
{
    let ghost before = v@.map_values(|m: &str| m@);
    v.push("Spinning the hamster…");
    v.push("99 bottles of beer on the wall...");
    v.push("Stay awhile and listen...");
    v.push("Convincing AI not to turn evil...");
    v.push("What's that smell?");
    v.push("Constructing additional pylons...");
    v.push("Roping some seaturtles...");
    v.push("Locating Jebediah Kerman...");
    v.push("We are not liable for any broken screens as a result of waiting.");
    v.push("turning it off and on again...");
    v.push("Well, this is embarrassing.");
    v.push("Whoops...");
    v.push("Shhh....");
    v.push("Didn't know paint dried so quickly.");
    v.push("Walking several dogs...");
    v.push("Organizing socks...");
    assert(v@.map_values(|m: &str| m@) =~= before + lines_3());
}

pub open spec fn lines_4() -> Seq<Seq<char>> {
    seq![
        "Dividing by zero..."@,
        "Consulting chuck norris..."@,
        "Cracking military-grade encryption..."@,
        "Simulating traveling salesman..."@,
        "Proving P=NP..."@,
        "Entangling superstrings..."@,
        "Twiddling thumbs..."@,
        "Searching for plot device..."@,
        "Trying to sort in O(n)..."@,
        "Searching for more jokes..."@,
        "Waiting for the intern to get more coffee..."@,
        "convert this bug to a feature..."@,
        "Winter is coming..."@,
        "Updating dependencies..."@,
        "Installing dependencies..."@,
        "Uninstalling dependencies..."@,
    ]
}

fn push_lines_4(v: &mut Vec<&'static str>)
    ensures
        final(v)@.map_values(|m: &str| m@) == old(v)@.map_values(|m: &str| m@) + lines_4(),
{
    let ghost before = v@.map_values(|m: &str| m@);
    v.push("Dividing by zero...");
    v.push("Consulting chuck norris...");
    v.push("Cracking military-grade encryption...");
    v.push("Simulating traveling salesman...");
    v.push("Proving P=NP...");
    v.push("Entangling superstrings...");
    v.push("Twiddling thumbs...");
    v.push("Searching for plot device...");
    v.push("Trying to sort in O(n)...");
    v.push("Searching for more jokes...");
    v.push("Waiting for the intern to get more coffee...");
    v.push("convert this bug to a feature...");
    v.push("Winter is coming...");
    v.push("Updating dependencies...");
    v.push("Installing dependencies...");
    v.push("Uninstalling dependencies...");
    assert(v@.map_values(|m: &str| m@) =~= before + lines_4());
}

pub open spec fn lines_5() -> Seq<Seq<char>> {
    seq![
        "Switching to the latest COBOL framework..."@,
        "Distracted by cat gifs..."@,
        "Finding someone to hold my beer..."@,
        "Aw, snap! Not.."@,
        "Ordering 1s and 0s..."@,
        "Consulting the manual..."@,
        "Feel free to spin in your chair"@,
        "Downloading more RAM..."@,
        "Mining some bitcoins..."@,
        "Downloading more RAM.."@,
        "Updating to Windows Vista..."@,
        "Deleting something..."@,
        "Initializing the initializer..."@,
        "Finishing the finisher..."@,
        "Optimizing the optimizer..."@,
        "Compiling the compiler..."@,
    ]
}

fn push_lines_5(v: &mut Vec<&'static str>)
    ensures
        final(v)@.map_values(|m: &str| m@) == old(v)@.map_values(|m: &str| m@) + lines_5(),
{
    let ghost before = v@.map_values(|m: &str| m@);
    v.push("Switching to the latest COBOL framework...");
    v.push("Distracted by cat gifs...");
    v.push("Finding someone to hold my beer...");
    v.push("Aw, snap! Not..");
    v.push("Ordering 1s and 0s...");
    v.push("Consulting the manual...");
    v.push("Feel free to spin in your chair");
    v.push("Downloading more RAM...");
    v.push("Mining some bitcoins...");
    v.push("Downloading more RAM..");
    v.push("Updating to Windows Vista...");
    v.push("Deleting something...");
    v.push("Initializing the initializer...");
    v.push("Finishing the finisher...");
    v.push("Optimizing the optimizer...");
    v.push("Compiling the compiler...");
    assert(v@.map_values(|m: &str| m@) =~= before + lines_5());
}

pub open spec fn lines_6() -> Seq<Seq<char>> {
    seq![
        "Updating Updater..."@,
        "Downloading Downloader..."@,
        "Debugging Debugger..."@,
        "Awaiting the awaiter..."@,
        "Googling it..."@,
        "Shovelling coal into the server..."@,
        "Pushing pixels..."@,
        "Building a wall..."@,
        "Reading Terms and Conditions for you..."@,
        "Running with scissors..."@,
        "Definitely not a virus..."@,
        "Work, work..."@,
        "Discovering new ways of making you wait..."@,
        "Your time is very important to us..."@,
        "Catching em' all..."@,
        "Finding elevator music..."@,
    ]
}

fn push_lines_6(v: &mut Vec<&'static str>)
    ensures
        final(v)@.map_values(|m: &str| m@) == old(v)@.map_values(|m: &str| m@) + lines_6(),
{
    let ghost before = v@.map_values(|m: &str| m@);
    v.push("Updating Updater...");
    v.push("Downloading Downloader...");
    v.push("Debugging Debugger...");
    v.push("Awaiting the awaiter...");
    v.push("Googling it...");
    v.push("Shovelling coal into the server...");
    v.push("Pushing pixels...");
    v.push("Building a wall...");
    v.push("Reading Terms and Conditions for you...");
    v.push("Running with scissors...");
    v.push("Definitely not a virus...");
    v.push("Work, work...");
    v.push("Discovering new ways of making you wait...");
    v.push("Your time is very important to us...");
    v.push("Catching em' all...");
    v.push("Finding elevator music...");
    assert(v@.map_values(|m: &str| m@) =~= before + lines_6());
}

pub open spec fn lines_7() -> Seq<Seq<char>> {
    seq![
        "Grabbing extra minions..."@,
        "Warming up..."@,
        "Starting over..."@,
        "Resetting the machine..."@,
        "Doing the heavy lifting..."@,
        "We're working very Hard .... Really"@,
        "Waking up the minions"@,
        "Serve other customers..."@,
        "Our premium plan is faster"@,
        "Feeding unicorns..."@,
        "Rupturing the subspace barrier..."@,
        "Creating an anti-time reaction..."@,
        "Converging tachyon pulses..."@,
        "Bypassing control of the matter-antimatter integrator..."@,
        "Adjusting the dilithium crystal converter assembly..."@,
        "Reversing the shield polarity..."@,
    ]
}

fn push_lines_7(v: &mut Vec<&'static str>)
    ensures
        final(v)@.map_values(|m: &str| m@) == old(v)@.map_values(|m: &str| m@) + lines_7(),
{
    let ghost before = v@.map_values(|m: &str| m@);
    v.push("Grabbing extra minions...");
    v.push("Warming up...");
    v.push("Starting over...");
    v.push("Resetting the machine...");
    v.push("Doing the heavy lifting...");
    v.push("We're working very Hard .... Really");
    v.push("Waking up the minions");
    v.push("Serve other customers...");
    v.push("Our premium plan is faster");
    v.push("Feeding unicorns...");
    v.push("Rupturing the subspace barrier...");
    v.push("Creating an anti-time reaction...");
    v.push("Converging tachyon pulses...");
    v.push("Bypassing control of the matter-antimatter integrator...");
    v.push("Adjusting the dilithium crystal converter assembly...");
    v.push("Reversing the shield polarity...");
    assert(v@.map_values(|m: &str| m@) =~= before + lines_7());
}

pub open spec fn lines_8() -> Seq<Seq<char>> {
    seq![
        "Disrupting warp fields with an inverse graviton burst..."@,
    ]
}

fn push_lines_8(v: &mut Vec<&'static str>)
    ensures
        final(v)@.map_values(|m: &str| m@) == old(v)@.map_values(|m: &str| m@) + lines_8(),
{
    let ghost before = v@.map_values(|m: &str| m@);
    v.push("Disrupting warp fields with an inverse graviton burst...");
    assert(v@.map_values(|m: &str| m@) =~= before + lines_8());
}

/// The lines the spinner shows (see [`thinking_messages_spec`]).
pub fn thinking_messages() -> (r: Vec<&'static str>)
    ensures
        r@.map_values(|m: &str| m@) == thinking_messages_spec(),
{
    let mut v: Vec<&'static str> = Vec::new();
    assert(v@.map_values(|m: &str| m@) =~= Seq::empty());
    push_lines_0(&mut v);
    push_lines_1(&mut v);
    push_lines_2(&mut v);
    push_lines_3(&mut v);
    push_lines_4(&mut v);
    push_lines_5(&mut v);
    push_lines_6(&mut v);
    push_lines_7(&mut v);
    push_lines_8(&mut v);
    assert(v@.map_values(|m: &str| m@) =~= thinking_messages_spec());
    v
}

/// One of the spinner's lines, drawn at random.
pub fn random_thinking_message() -> (r: &'static str)
    ensures
        thinking_messages_spec().contains(r@),
{
    let v = thinking_messages();
    assert(v@.map_values(|m: &str| m@).len() == thinking_messages_spec().len());
    let i = random_below(v.len());
    assert(v@.map_values(|m: &str| m@)[i as int] == v@[i as int]@);
    v[i]
}

/// `a / b` rounded to the nearest integer, ties to the even one (Python's
/// `round`).
pub open spec fn round_half_even(a: nat, b: nat) -> nat
    recommends
        b > 0,
{
    let q = a / b;
    let r = a % b;
    if 2 * r < b { q } else if 2 * r > b { q + 1 } else if q % 2 == 0 { q } else { q + 1 }
}

/// How many times the spinner changes its line: `max_seconds / duration`, rounded
/// half to even. (The ratio is computed exactly; the floating-point division it
/// stands for rounds to the same integer for all `max_seconds` below 2^52.)
pub fn thinking_iterations(max_seconds: u64, duration: u64) -> (r: u64)
    requires
        duration > 0,
        max_seconds < 0x10_0000_0000_0000,
    ensures
        r == round_half_even(max_seconds as nat, duration as nat),
{
    let q = max_seconds / duration;
    let r = max_seconds % duration;
    if r < duration - r {
        q
    } else if r > duration - r {
        q + 1
    } else if q % 2 == 0 {
        q
    } else {
        q + 1
    }
}

} // verus!
