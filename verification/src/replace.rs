//! The replacement of a file by a whole new document: it is written under
//! another name first, and takes the place of the file only when it is complete.

use vstd::prelude::*;
use vstd::string::*;

use crate::decode::{chosen_document, tree_of_document};
use crate::document::{json_of_text, yaml_of_text};
use crate::error::{LoaderError, LoaderFailure};
use crate::json::Json;
use crate::persist::{
    persisted_trees_read_back, temporary_name, tree_json, unfinished_documents_are_apart,
};
use crate::text::occurs;
use crate::tree::{tree_fault, TreeModel};

verus! {

/// What is to be done next.
#[derive(Clone, Copy, Debug, PartialEq, Eq, Structural)]
pub enum ReplaceStep {
    /// Create the temporary file, which must not be there yet.
    Create,
    /// Write the whole document into it.
    Write,
    /// Bring it to the disk.
    Sync,
    /// Give it the name of the file, whose old document is gone then.
    Rename,
    /// Remove the temporary file after a failure.
    Remove,
    /// The file was replaced.
    Replaced,
    /// The file was left as it was.
    Left,
}

/// The step after one that went well, or did not.
pub open spec fn step_after(step: ReplaceStep, well: bool) -> ReplaceStep {
    match step {
        ReplaceStep::Create => if well {
            ReplaceStep::Write
        } else {
            ReplaceStep::Remove
        },
        ReplaceStep::Write => if well {
            ReplaceStep::Sync
        } else {
            ReplaceStep::Remove
        },
        ReplaceStep::Sync => if well {
            ReplaceStep::Rename
        } else {
            ReplaceStep::Remove
        },
        ReplaceStep::Rename => if well {
            ReplaceStep::Replaced
        } else {
            ReplaceStep::Remove
        },
        ReplaceStep::Remove => ReplaceStep::Left,
        ReplaceStep::Replaced => ReplaceStep::Replaced,
        ReplaceStep::Left => ReplaceStep::Left,
    }
}

/// A replacement under way.
#[derive(Debug)]
pub struct Replacement {
    pub step: ReplaceStep,
    pub failure: String,
}

impl Replacement {
    /// A replacement that has done nothing yet.
    pub fn new() -> (result: Self)
        ensures
            result.step == ReplaceStep::Create,
            result.failure@ == Seq::<char>::empty(),
    {
        proof {
            reveal_strlit("");
            assert(""@ =~= Seq::empty());
        }
        Replacement { step: ReplaceStep::Create, failure: "".to_owned() }
    }

    /// Takes the outcome of the step. What went wrong first is kept; whether
    /// the temporary file could be removed does not matter.
    pub fn report(&mut self, outcome: Result<(), String>)
        ensures
            final(self).step == step_after(old(self).step, outcome is Ok),
            final(self).failure@ == (match outcome {
                Err(message) => if old(self).step == ReplaceStep::Create || old(self).step
                    == ReplaceStep::Write || old(self).step == ReplaceStep::Sync || old(self).step
                    == ReplaceStep::Rename {
                    message@
                } else {
                    old(self).failure@
                },
                Ok(()) => old(self).failure@,
            }),
    {
        let next = match self.step {
            ReplaceStep::Create => ReplaceStep::Write,
            ReplaceStep::Write => ReplaceStep::Sync,
            ReplaceStep::Sync => ReplaceStep::Rename,
            ReplaceStep::Rename => ReplaceStep::Replaced,
            ReplaceStep::Remove => {
                self.step = ReplaceStep::Left;
                return;
            },
            ReplaceStep::Replaced => return,
            ReplaceStep::Left => return,
        };
        match outcome {
            Ok(()) => {
                self.step = next;
            },
            Err(message) => {
                self.step = ReplaceStep::Remove;
                self.failure = message;
            },
        }
    }

    /// The outcome, once nothing is left to do.
    pub fn outcome(&self) -> (result: Option<Result<(), LoaderError>>)
        ensures
            match result {
                None => self.step != ReplaceStep::Replaced && self.step != ReplaceStep::Left,
                Some(Ok(())) => self.step == ReplaceStep::Replaced,
                Some(Err(error)) => self.step == ReplaceStep::Left && error@
                    == LoaderFailure::Persistence(self.failure@),
            },
    {
        match self.step {
            ReplaceStep::Replaced => Some(Ok(())),
            ReplaceStep::Left => Some(Err(LoaderError::Persistence(self.failure.clone()))),
            _ => None,
        }
    }
}

/// How each step of a replacement ends. A write that fails leaves `torn` in the
/// temporary file.
pub struct Fate {
    pub create: bool,
    pub write: bool,
    pub sync: bool,
    pub rename: bool,
    pub remove: bool,
    pub torn: Seq<char>,
}

/// The step goes well.
pub open spec fn goes_well(step: ReplaceStep, fate: Fate) -> bool {
    match step {
        ReplaceStep::Create => fate.create,
        ReplaceStep::Write => fate.write,
        ReplaceStep::Sync => fate.sync,
        ReplaceStep::Rename => fate.rename,
        ReplaceStep::Remove => fate.remove,
        _ => true,
    }
}

/// What the files of a directory hold after one step.
pub open spec fn files_after(
    files: Map<Seq<char>, Seq<char>>,
    file: Seq<char>,
    temporary: Seq<char>,
    text: Seq<char>,
    step: ReplaceStep,
    fate: Fate,
) -> Map<Seq<char>, Seq<char>> {
    match step {
        ReplaceStep::Create => if fate.create {
            files.insert(temporary, Seq::empty())
        } else {
            files
        },
        ReplaceStep::Write => files.insert(
            temporary,
            if fate.write {
                text
            } else {
                fate.torn
            },
        ),
        ReplaceStep::Rename => if fate.rename {
            files.insert(file, files[temporary]).remove(temporary)
        } else {
            files
        },
        ReplaceStep::Remove => if fate.remove {
            files.remove(temporary)
        } else {
            files
        },
        _ => files,
    }
}

/// How many steps a replacement can take from here.
pub open spec fn steps_left(step: ReplaceStep) -> nat {
    match step {
        ReplaceStep::Create => 5,
        ReplaceStep::Write => 4,
        ReplaceStep::Sync => 3,
        ReplaceStep::Rename => 2,
        ReplaceStep::Remove => 1,
        _ => 0,
    }
}

/// How a replacement ends that is at `step`, and what the files hold then.
pub open spec fn replaced(
    files: Map<Seq<char>, Seq<char>>,
    file: Seq<char>,
    temporary: Seq<char>,
    text: Seq<char>,
    step: ReplaceStep,
    fate: Fate,
) -> (ReplaceStep, Map<Seq<char>, Seq<char>>)
    decreases steps_left(step),
{
    if steps_left(step) == 0 {
        (step, files)
    } else {
        replaced(
            files_after(files, file, temporary, text, step, fate),
            file,
            temporary,
            text,
            step_after(step, goes_well(step, fate)),
            fate,
        )
    }
}

/// Both maps have the same under a name, or both nothing.
pub open spec fn same_under(
    a: Map<Seq<char>, Seq<char>>,
    b: Map<Seq<char>, Seq<char>>,
    name: Seq<char>,
) -> bool {
    a.dom().contains(name) == b.dom().contains(name) && (a.dom().contains(name) ==> a[name]
        == b[name])
}

/// Where a replacement can be: the file is as it was until it is replaced, and
/// before the new document takes its place, that is complete.
spec fn on_the_way(
    before: Map<Seq<char>, Seq<char>>,
    files: Map<Seq<char>, Seq<char>>,
    file: Seq<char>,
    temporary: Seq<char>,
    text: Seq<char>,
    step: ReplaceStep,
) -> bool {
    &&& forall|name: Seq<char>|
        name != file && name != temporary ==> #[trigger] same_under(before, files, name)
    &&& step != ReplaceStep::Replaced ==> same_under(before, files, file)
    &&& step == ReplaceStep::Sync || step == ReplaceStep::Rename ==> files.dom().contains(temporary)
        && files[temporary] == text
    &&& step == ReplaceStep::Replaced ==> files.dom().contains(file) && files[file] == text
        && !files.dom().contains(temporary)
}

proof fn step_stays_on_the_way(
    before: Map<Seq<char>, Seq<char>>,
    files: Map<Seq<char>, Seq<char>>,
    file: Seq<char>,
    temporary: Seq<char>,
    text: Seq<char>,
    step: ReplaceStep,
    fate: Fate,
)
    requires
        file != temporary,
        on_the_way(before, files, file, temporary, text, step),
    ensures
        on_the_way(
            before,
            files_after(files, file, temporary, text, step, fate),
            file,
            temporary,
            text,
            step_after(step, goes_well(step, fate)),
        ),
{
    let after = files_after(files, file, temporary, text, step, fate);
    assert forall|name: Seq<char>|
        name != file && name != temporary implies #[trigger] same_under(before, after, name) by {
        assert(same_under(before, files, name));
    }
}

proof fn replacement_stays_on_the_way(
    before: Map<Seq<char>, Seq<char>>,
    files: Map<Seq<char>, Seq<char>>,
    file: Seq<char>,
    temporary: Seq<char>,
    text: Seq<char>,
    step: ReplaceStep,
    fate: Fate,
)
    requires
        file != temporary,
        on_the_way(before, files, file, temporary, text, step),
    ensures
        ({
            let (end, after) = replaced(files, file, temporary, text, step, fate);
            &&& end == ReplaceStep::Replaced || end == ReplaceStep::Left
            &&& on_the_way(before, after, file, temporary, text, end)
            &&& end == ReplaceStep::Left && step != ReplaceStep::Left && fate.remove
                ==> !after.dom().contains(temporary)
        }),
    decreases steps_left(step),
{
    if steps_left(step) > 0 {
        step_stays_on_the_way(before, files, file, temporary, text, step, fate);
        replacement_stays_on_the_way(
            before,
            files_after(files, file, temporary, text, step, fate),
            file,
            temporary,
            text,
            step_after(step, goes_well(step, fate)),
            fate,
        );
    }
}

/// However the steps end, the file is replaced by the whole text or left as it
/// was. It is replaced exactly when creating, writing, syncing and renaming all
/// went well, and nothing is left of the temporary file then; after a failure
/// nothing is left of it if it could be removed. No other file changes.
pub proof fn replacement_is_all_or_nothing(
    files: Map<Seq<char>, Seq<char>>,
    file: Seq<char>,
    process: u64,
    number: u64,
    text: Seq<char>,
    fate: Fate,
)
    ensures
        ({
            let temporary = temporary_name(file, process, number);
            let (end, after) = replaced(
                files,
                file,
                temporary,
                text,
                ReplaceStep::Create,
                fate,
            );
            &&& end == ReplaceStep::Replaced || end == ReplaceStep::Left
            &&& end == ReplaceStep::Replaced <==> fate.create && fate.write && fate.sync
                && fate.rename
            &&& end == ReplaceStep::Replaced ==> after.dom().contains(file) && after[file] == text
                && !after.dom().contains(temporary)
            &&& end == ReplaceStep::Left ==> same_under(files, after, file) && (fate.remove
                ==> !after.dom().contains(temporary))
            &&& forall|name: Seq<char>|
                name != file && name != temporary ==> #[trigger] same_under(files, after, name)
        }),
{
    let temporary = temporary_name(file, process, number);
    unfinished_documents_are_apart(file, process, number, number);
    replacement_stays_on_the_way(
        files,
        files,
        file,
        temporary,
        text,
        ReplaceStep::Create,
        fate,
    );
    reveal_with_fuel(replaced, 6);
}

/// At no moment of a replacement is the file anything but what it was before or
/// the whole new text.
pub proof fn files_are_never_torn(
    before: Map<Seq<char>, Seq<char>>,
    file: Seq<char>,
    process: u64,
    number: u64,
    text: Seq<char>,
    fates: Seq<Fate>,
    count: nat,
)
    requires
        count <= fates.len(),
    ensures
        ({
            let temporary = temporary_name(file, process, number);
            let (step, files) = in_the_middle(before, file, temporary, text, fates, count);
            same_under(before, files, file) || (files.dom().contains(file) && files[file] == text)
        }),
{
    let temporary = temporary_name(file, process, number);
    unfinished_documents_are_apart(file, process, number, number);
    middle_is_on_the_way(before, file, temporary, text, fates, count);
}

/// The step and the files after `count` steps, of which each ends as its fate
/// says.
pub open spec fn in_the_middle(
    before: Map<Seq<char>, Seq<char>>,
    file: Seq<char>,
    temporary: Seq<char>,
    text: Seq<char>,
    fates: Seq<Fate>,
    count: nat,
) -> (ReplaceStep, Map<Seq<char>, Seq<char>>)
    decreases count,
{
    if count == 0 {
        (ReplaceStep::Create, before)
    } else {
        let (step, files) = in_the_middle(before, file, temporary, text, fates, (count - 1) as nat);
        let fate = fates[count - 1];
        (
            step_after(step, goes_well(step, fate)),
            files_after(files, file, temporary, text, step, fate),
        )
    }
}

proof fn middle_is_on_the_way(
    before: Map<Seq<char>, Seq<char>>,
    file: Seq<char>,
    temporary: Seq<char>,
    text: Seq<char>,
    fates: Seq<Fate>,
    count: nat,
)
    requires
        file != temporary,
    ensures
        ({
            let (step, files) = in_the_middle(before, file, temporary, text, fates, count);
            on_the_way(before, files, file, temporary, text, step)
        }),
    decreases count,
{
    if count > 0 {
        middle_is_on_the_way(before, file, temporary, text, fates, (count - 1) as nat);
        let (step, files) = in_the_middle(before, file, temporary, text, fates, (count - 1) as nat);
        step_stays_on_the_way(before, files, file, temporary, text, step, fates[count - 1]);
    }
}

/// A valid tree whose document replaced a file is what is read from the file
/// afterwards, if the text holds that document, as JSON or YAML, and no `!!js`.
/// When the replacement failed, what is read is what was read before.
pub proof fn replaced_files_read_back(
    files: Map<Seq<char>, Seq<char>>,
    file: Seq<char>,
    process: u64,
    number: u64,
    tree: TreeModel,
    text: Seq<char>,
    fate: Fate,
)
    requires
        tree_fault(tree) is None,
        !occurs(text, "!!js"@),
        chosen_document(json_of_text(text), yaml_of_text(text)) == Ok::<Json, LoaderFailure>(tree_json(tree)),
    ensures
        ({
            let (end, after) = replaced(
                files,
                file,
                temporary_name(file, process, number),
                text,
                ReplaceStep::Create,
                fate,
            );
            &&& end == ReplaceStep::Replaced ==> tree_of_document(
                after[file],
                json_of_text(after[file]),
                yaml_of_text(after[file]),
            ) == Ok::<TreeModel, LoaderFailure>(tree)
            &&& end == ReplaceStep::Left ==> same_under(files, after, file)
        }),
{
    replacement_is_all_or_nothing(files, file, process, number, text, fate);
    persisted_trees_read_back(tree, text, json_of_text(text), yaml_of_text(text));
}

}
