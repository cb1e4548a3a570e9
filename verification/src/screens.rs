//! Whether anything is being displayed, straight from the kernel.
//!
//! A compositor turning monitors off leaves it in sysfs: the connector stops
//! being enabled, or its DPMS property goes off. That is readable by anything
//! with a filesystem, which a system service has and a session bus is not.

use crate::text;
use vstd::prelude::*;

verus! {

/// One entry under `/sys/class/drm`, by what its files hold.
#[derive(Debug)]
pub struct Output {
    pub status: Option<String>,
    pub enabled: Option<String>,
    pub dpms: Option<String>,
}

/// What a file says, without the white space around it.
pub open spec fn attribute(contents: Option<String>) -> Option<Seq<char>> {
    match contents {
        Some(contents) => Some(text::trim(contents@)),
        None => None,
    }
}

/// Is an output with these attributes switched off, one way or the other?
pub open spec fn dark(enabled: Option<Seq<char>>, dpms: Option<Seq<char>>) -> bool {
    dpms == Some("Off"@) || enabled == Some("disabled"@)
}

impl Output {
    /// Is something plugged in?
    pub open spec fn connected(self) -> bool {
        attribute(self.status) == Some("connected"@)
    }

    pub open spec fn dark(self) -> bool {
        dark(attribute(self.enabled), attribute(self.dpms))
    }
}

/// Is every output something is plugged into switched off?
pub open spec fn nothing_lit(outputs: Seq<Output>) -> bool {
    forall|i: int|
        0 <= i < outputs.len() && (#[trigger] outputs[i]).connected() ==> outputs[i].dark()
}

/// Does the kernel say of any entry whether something is plugged in?
pub open spec fn judgeable(outputs: Seq<Output>) -> bool {
    exists|i: int| 0 <= i < outputs.len() && attribute((#[trigger] outputs[i]).status) is Some
}

fn read(contents: &Option<String>) -> (r: Option<String>)
    ensures
        text::opt_view(r) == attribute(*contents),
{
    match contents {
        Some(contents) => Some(text::trimmed_string(contents.as_str())),
        None => None,
    }
}

/// True when every connected output is dark, `None` when there is nothing to
/// judge by - no DRM at all, or a kernel that reports none of this.
///
/// Connectors that all have nothing plugged in are a machine with nothing to
/// look at, which counts as dark.
pub fn all_dark(outputs: Option<&Vec<Output>>) -> (r: Option<bool>)
    ensures
        r == (match outputs {
            Some(outputs) => if judgeable(outputs@) {
                Some(nothing_lit(outputs@))
            } else {
                None
            },
            None => None,
        }),
        r == Some(false) ==> exists|i: int|
            0 <= i < outputs->0@.len() && (#[trigger] outputs->0@[i]).connected()
                && !outputs->0@[i].dark(),
{
    match outputs {
        None => None,
        Some(all) => {
            let mut judged = false;
            let mut i: usize = 0;
            while i < all.len()
                invariant
                    outputs == Some(all),
                    i <= all@.len(),
                    judged == judgeable(all@.take(i as int)),
                    forall|k: int|
                        0 <= k < i && (#[trigger] all@[k]).connected() ==> all@[k].dark(),
                decreases all@.len() - i,
            {
                let output = &all[i];
                proof {
                    lemma_one_more(all@, i as int);
                }
                let connected = match read(&output.status) {
                    Some(status) => {
                        judged = true;
                        text::same(status.as_str(), "connected")
                    },
                    None => false,
                };
                let enabled = read(&output.enabled);
                let dpms = read(&output.dpms);
                if connected && !is_dark(text::as_str(&enabled), text::as_str(&dpms)) {
                    proof {
                        assert(all@[i as int].connected() && !all@[i as int].dark());
                        assert(attribute(all@[i as int].status) is Some);
                    }
                    return Some(false);
                }
                i += 1;
            }
            proof {
                assert(all@.take(i as int) =~= all@);
            }
            if judged {
                Some(true)
            } else {
                None
            }
        },
    }
}

/// There is something to judge by as soon as one more entry has a status.
proof fn lemma_one_more(outputs: Seq<Output>, n: int)
    requires
        0 <= n < outputs.len(),
    ensures
        judgeable(outputs.take(n + 1)) == (judgeable(outputs.take(n)) || attribute(
            outputs[n].status,
        ) is Some),
{
    let less = outputs.take(n);
    let more = outputs.take(n + 1);
    assert(more[n] == outputs[n]);
    if judgeable(less) {
        let k = choose|k: int|
            0 <= k < less.len() && attribute((#[trigger] less[k]).status) is Some;
        assert(more[k] == less[k]);
    }
    if judgeable(more) {
        let k = choose|k: int|
            0 <= k < more.len() && attribute((#[trigger] more[k]).status) is Some;
        if k < n {
            assert(less[k] == more[k]);
        }
    }
}

/// An output is dark when it is switched off, and also when the compositor
/// simply stopped driving it: turning a monitor off does one or the other
/// depending on the driver.
pub fn is_dark(enabled: Option<&str>, dpms: Option<&str>) -> (r: bool)
    ensures
        r == dark(text::str_view(enabled), text::str_view(dpms)),
{
    let off = match dpms {
        Some(dpms) => text::same(dpms, "Off"),
        None => false,
    };
    let disabled = match enabled {
        Some(enabled) => text::same(enabled, "disabled"),
        None => false,
    };
    off || disabled
}

/// One lit screen is enough to keep the lights on.
pub proof fn law_one_lit_screen_counts(outputs: Seq<Output>, i: int)
    requires
        0 <= i < outputs.len(),
        outputs[i].connected(),
        !outputs[i].dark(),
    ensures
        !nothing_lit(outputs),
{
}

/// Connectors with nothing plugged in have no say.
pub proof fn law_empty_connectors_have_no_say(outputs: Seq<Output>)
    requires
        forall|i: int| 0 <= i < outputs.len() ==> !(#[trigger] outputs[i]).connected(),
    ensures
        nothing_lit(outputs),
{
}

/// An output is dark when its power management says off or when it is disabled,
/// and not for want of an answer to either.
pub proof fn law_an_output_is_dark_either_way(
    enabled: Option<Seq<char>>,
    dpms: Option<Seq<char>>,
)
    ensures
        dpms == Some("Off"@) ==> dark(enabled, dpms),
        enabled == Some("disabled"@) ==> dark(enabled, dpms),
        dark(enabled, dpms) && dpms != Some("Off"@) ==> enabled == Some("disabled"@),
        !dark(None, None),
        !dark(Some("enabled"@), Some("On"@)),
{
    reveal_strlit("Off");
    reveal_strlit("On");
    reveal_strlit("enabled");
    reveal_strlit("disabled");
    assert("Off"@.len() == 3 && "On"@.len() == 2);
    assert("enabled"@.len() == 7 && "disabled"@.len() == 8);
}

/// Screens are judged one by one: a machine with one more output is dark when it
/// was and that one has nothing plugged in or is switched off.
pub proof fn law_every_output_is_judged(outputs: Seq<Output>, output: Output)
    ensures
        nothing_lit(outputs.push(output)) <==> nothing_lit(outputs) && !(output.connected()
            && !output.dark()),
        judgeable(outputs.push(output)) <==> judgeable(outputs) || output.status is Some,
        nothing_lit(Seq::empty()),
        !judgeable(Seq::empty()),
        output.connected() ==> output.status is Some,
{
    let all = outputs.push(output);
    let n = outputs.len() as int;
    assert(all[n] == output);
    if nothing_lit(all) {
        assert forall|i: int| 0 <= i < n && (#[trigger] outputs[i]).connected() implies
            outputs[i].dark() by {
            assert(all[i] == outputs[i]);
        }
    }
    if nothing_lit(outputs) && !(output.connected() && !output.dark()) {
        assert forall|i: int| 0 <= i < all.len() && (#[trigger] all[i]).connected() implies
            all[i].dark() by {
            if i < n {
                assert(all[i] == outputs[i]);
            }
        }
    }
    lemma_one_more(all, n);
    assert(all.take(n) =~= outputs);
    assert(all.take(n + 1) =~= all);
}

/// What a file says is taken without the white space around it.
pub proof fn law_attributes_are_trimmed(contents: String, output: Output)
    requires
        output.status == Some(contents),
    ensures
        attribute(Some(contents)) == Some(text::trim(contents@)),
        output.connected() <==> text::trim(contents@) == "connected"@,
{
}

} // verus!
