use vstd::prelude::*;
use vstd::string::StringExecFns;
use crate::text::chars_of;

verus! {

/// A callback registered under the name of a lifecycle event.
#[derive(Debug, PartialEq)]
pub struct Hook<F> {
    /// The name of the event that the callback answers.
    pub name: String,
    /// What to run for the event. A failure is reported as a message.
    pub callback: F,
}

/// The hook that answers `name` with `callback`.
pub fn hook<F>(name: &str, callback: F) -> (h: Hook<F>)
    ensures
        h.name@ == name@,
        h.callback == callback,
{
    Hook { name: name.to_owned(), callback: callback }
}

/// `needle` stands in `hay` at position `i`.
pub open spec fn occurs_at(hay: Seq<char>, needle: Seq<char>, i: int) -> bool {
    &&& 0 <= i
    &&& i + needle.len() <= hay.len()
    &&& hay.subrange(i, i + needle.len()) == needle
}

/// `needle` stands somewhere in `hay`. The empty text stands in every text.
pub open spec fn contains(hay: Seq<char>, needle: Seq<char>) -> bool {
    exists|i: int| occurs_at(hay, needle, i)
}

/// Entry `i` is the one to run for `invoked`: its name stands in `invoked`,
/// and no earlier entry's name does.
pub open spec fn is_first_match<F>(registry: Seq<Hook<F>>, invoked: Seq<char>, i: int) -> bool {
    &&& 0 <= i < registry.len()
    &&& contains(invoked, registry[i].name@)
    &&& forall|j: int| 0 <= j < i ==> !contains(invoked, #[trigger] registry[j].name@)
}

/// No entry's name stands in `invoked`.
pub open spec fn no_match<F>(registry: Seq<Hook<F>>, invoked: Seq<char>) -> bool {
    forall|j: int| 0 <= j < registry.len() ==> !contains(invoked, #[trigger] registry[j].name@)
}

/// What a dispatch for `invoked` yields: the result of the one call of the
/// first matching entry's callback, or the report that there is none.
pub open spec fn dispatched<F: Fn() -> Result<(), String>>(
    registry: Seq<Hook<F>>,
    invoked: Seq<char>,
    r: Result<(), String>,
) -> bool {
    &&& forall|i: int| #[trigger]
        is_first_match(registry, invoked, i) ==> call_ensures(registry[i].callback, (), r)
    &&& no_match(registry, invoked) ==> r is Err && r->Err_0@
        == "Warning: Unknown callback for hook "@ + invoked
}

/// A name stands in every text that is built around it, and so in itself.
pub proof fn lemma_contains_inside(before: Seq<char>, name: Seq<char>, after: Seq<char>)
    ensures
        contains(before + name + after, name),
        contains(name, name),
{
    let whole = before + name + after;
    assert(whole.subrange(before.len() as int, (before.len() + name.len()) as int) =~= name);
    assert(occurs_at(whole, name, before.len() as int));
    assert(name.subrange(0, name.len() as int) =~= name);
    assert(occurs_at(name, name, 0));
}

fn occurs_here(hay: &Vec<char>, needle: &Vec<char>, i: usize) -> (b: bool)
    requires
        i + needle.len() <= hay.len(),
    ensures
        b == occurs_at(hay@, needle@, i as int),
{
    let mut k: usize = 0;
    while k < needle.len()
        invariant
            k <= needle.len(),
            i + needle.len() <= hay.len(),
            forall|j: int| 0 <= j < k ==> hay@[i + j] == needle@[j],
        decreases needle.len() - k,
    {
        if hay[i + k] != needle[k] {
            proof {
                assert(hay@.subrange(i as int, i + needle.len())[k as int] == hay@[i + k]);
            }
            return false;
        }
        k += 1;
    }
    proof {
        assert(hay@.subrange(i as int, i + needle.len()) =~= needle@);
    }
    true
}

/// Whether `needle` stands somewhere in `hay`.
pub fn contains_text(hay: &Vec<char>, needle: &Vec<char>) -> (b: bool)
    ensures
        b == contains(hay@, needle@),
{
    if needle.len() > hay.len() {
        return false;
    }
    let last: usize = hay.len() - needle.len();
    let mut i: usize = 0;
    while i < last
        invariant
            i <= last,
            last == hay.len() - needle.len(),
            forall|j: int| 0 <= j < i ==> !occurs_at(hay@, needle@, j),
        decreases last - i,
    {
        if occurs_here(hay, needle, i) {
            return true;
        }
        i += 1;
    }
    occurs_here(hay, needle, last)
}

/// Runs the callback of the first entry whose name stands in `hook_name`,
/// once, and hands its result on. Where no entry matches, nothing is run and
/// the failure names the hook.
pub fn dispatch<F: Fn() -> Result<(), String>>(registry: Vec<Hook<F>>, hook_name: &str) -> (r:
    Result<(), String>)
    requires
        forall|i: int| #[trigger]
            is_first_match(registry@, hook_name@, i) ==> call_requires(registry@[i].callback, ()),
    ensures
        dispatched(registry@, hook_name@, r),
{
    let invoked = chars_of(hook_name);
    let mut i: usize = 0;
    while i < registry.len()
        invariant
            i <= registry.len(),
            invoked@ == hook_name@,
            forall|j: int| 0 <= j < i ==> !contains(hook_name@, #[trigger] registry@[j].name@),
            forall|k: int| #[trigger]
                is_first_match(registry@, hook_name@, k) ==> call_requires(
                    registry@[k].callback,
                    (),
                ),
        decreases registry.len() - i,
    {
        let entry = &registry[i];
        let name = chars_of(entry.name.as_str());
        if contains_text(&invoked, &name) {
            proof {
                assert(is_first_match(registry@, hook_name@, i as int));
            }
            return (entry.callback)();
        }
        i += 1;
    }
    let mut message = "Warning: Unknown callback for hook ".to_owned();
    message.append(hook_name);
    Err(message)
}

/// The name to dispatch on: the one that the environment gave, or the
/// empty name where it gave none.
pub open spec fn invoked_name(hook_name: Option<String>) -> Seq<char> {
    match hook_name {
        Some(name) => name@,
        None => Seq::empty(),
    }
}

/// Dispatches on the name of the hook that the agent fired, as the caller
/// read it from the process environment, and on the empty name where the
/// environment gave none.
pub fn process_hooks<F: Fn() -> Result<(), String>>(
    registry: Vec<Hook<F>>,
    hook_name: Option<String>,
) -> (r: Result<(), String>)
    requires
        forall|i: int| #[trigger]
            is_first_match(registry@, invoked_name(hook_name), i) ==> call_requires(
                registry@[i].callback,
                (),
            ),
    ensures
        dispatched(registry@, invoked_name(hook_name), r),
{
    match hook_name {
        Some(name) => {
            proof {
                assert(invoked_name(hook_name) == name@);
            }
            dispatch(registry, name.as_str())
        },
        None => {
            proof {
                reveal_strlit("");
                assert(invoked_name(hook_name) =~= ""@);
            }
            dispatch(registry, "")
        },
    }
}

} // verus!
