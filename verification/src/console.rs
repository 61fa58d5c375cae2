//! The choices of the interactive console.
use vstd::prelude::*;

verus! {

/// What the user can ask the console to do.
#[allow(non_camel_case_types)]
#[derive(PartialEq, Eq, Structural, Debug, Clone, Copy)]
pub enum Tasks {
    LOAD,
    NEW,
    SAVE,
    QUIT,
    ADD,
    DELETE,
    MOVE,
    ROTATE,
    SCALE,
    GENERATE,
}

/// The tasks offered, in menu order: without a workspace one can only load
/// one, start a new one, or quit; with one, everything but loading and
/// starting anew.
pub open spec fn spec_menu(has_workspace: bool) -> Seq<Tasks> {
    if !has_workspace {
        seq![Tasks::LOAD, Tasks::NEW, Tasks::QUIT]
    } else {
        seq![
            Tasks::SAVE,
            Tasks::QUIT,
            Tasks::ADD,
            Tasks::DELETE,
            Tasks::MOVE,
            Tasks::ROTATE,
            Tasks::SCALE,
            Tasks::GENERATE,
        ]
    }
}

/// The tasks offered to the user.
pub fn menu(has_workspace: bool) -> (r: Vec<Tasks>)
    ensures
        r@ == spec_menu(has_workspace),
{
    let r = if !has_workspace {
        vec![Tasks::LOAD, Tasks::NEW, Tasks::QUIT]
    } else {
        vec![
            Tasks::SAVE,
            Tasks::QUIT,
            Tasks::ADD,
            Tasks::DELETE,
            Tasks::MOVE,
            Tasks::ROTATE,
            Tasks::SCALE,
            Tasks::GENERATE,
        ]
    };
    assert(r@ =~= spec_menu(has_workspace));
    r
}

/// The name that the menu shows for a task.
pub open spec fn task_name(t: Tasks) -> Seq<char> {
    match t {
        Tasks::LOAD => seq!['L', 'O', 'A', 'D'],
        Tasks::NEW => seq!['N', 'E', 'W'],
        Tasks::SAVE => seq!['S', 'A', 'V', 'E'],
        Tasks::QUIT => seq!['Q', 'U', 'I', 'T'],
        Tasks::ADD => seq!['A', 'D', 'D'],
        Tasks::DELETE => seq!['D', 'E', 'L', 'E', 'T', 'E'],
        Tasks::MOVE => seq!['M', 'O', 'V', 'E'],
        Tasks::ROTATE => seq!['R', 'O', 'T', 'A', 'T', 'E'],
        Tasks::SCALE => seq!['S', 'C', 'A', 'L', 'E'],
        Tasks::GENERATE => seq!['G', 'E', 'N', 'E', 'R', 'A', 'T', 'E'],
    }
}

impl Tasks {
    /// The name that the menu shows, the variant's own name.
    pub fn name(&self) -> (s: &'static str)
        ensures
            s@ == task_name(*self),
    {
        match self {
            Tasks::LOAD => {
                proof { reveal_strlit("LOAD"); }
                "LOAD"
            },
            Tasks::NEW => {
                proof { reveal_strlit("NEW"); }
                "NEW"
            },
            Tasks::SAVE => {
                proof { reveal_strlit("SAVE"); }
                "SAVE"
            },
            Tasks::QUIT => {
                proof { reveal_strlit("QUIT"); }
                "QUIT"
            },
            Tasks::ADD => {
                proof { reveal_strlit("ADD"); }
                "ADD"
            },
            Tasks::DELETE => {
                proof { reveal_strlit("DELETE"); }
                "DELETE"
            },
            Tasks::MOVE => {
                proof { reveal_strlit("MOVE"); }
                "MOVE"
            },
            Tasks::ROTATE => {
                proof { reveal_strlit("ROTATE"); }
                "ROTATE"
            },
            Tasks::SCALE => {
                proof { reveal_strlit("SCALE"); }
                "SCALE"
            },
            Tasks::GENERATE => {
                proof { reveal_strlit("GENERATE"); }
                "GENERATE"
            },
        }
    }
}

/// Without a workspace the menu offers exactly loading one, starting a new
/// one and quitting; with a workspace it offers exactly every task but
/// loading and starting anew. Each task is offered at most once, quitting is
/// always offered, and the first entry, the one selected by default, is
/// loading without a workspace and saving with one.
pub proof fn lemma_menu_offers()
    ensures
        forall|t: Tasks| #[trigger] spec_menu(false).contains(t) <==> (t == Tasks::LOAD || t == Tasks::NEW || t == Tasks::QUIT),
        forall|t: Tasks| #[trigger] spec_menu(true).contains(t) <==> (t != Tasks::LOAD && t != Tasks::NEW),
        spec_menu(false).no_duplicates(),
        spec_menu(true).no_duplicates(),
        spec_menu(false)[0] == Tasks::LOAD,
        spec_menu(true)[0] == Tasks::SAVE,
{
    let off = spec_menu(false);
    let on = spec_menu(true);
    assert forall|t: Tasks| #[trigger] off.contains(t) <==> (t == Tasks::LOAD || t == Tasks::NEW || t == Tasks::QUIT) by {
        match t {
            Tasks::LOAD => assert(off[0] == t),
            Tasks::NEW => assert(off[1] == t),
            Tasks::QUIT => assert(off[2] == t),
            _ => {},
        }
    }
    assert forall|t: Tasks| #[trigger] on.contains(t) <==> (t != Tasks::LOAD && t != Tasks::NEW) by {
        match t {
            Tasks::SAVE => assert(on[0] == t),
            Tasks::QUIT => assert(on[1] == t),
            Tasks::ADD => assert(on[2] == t),
            Tasks::DELETE => assert(on[3] == t),
            Tasks::MOVE => assert(on[4] == t),
            Tasks::ROTATE => assert(on[5] == t),
            Tasks::SCALE => assert(on[6] == t),
            Tasks::GENERATE => assert(on[7] == t),
            _ => {},
        }
    }
}

/// The task whose shown name is `s`.
spec fn task_of_name(s: Seq<char>) -> Option<Tasks> {
    if s.len() == 4 && s[0] == 'L' {
        Some(Tasks::LOAD)
    } else if s.len() == 3 && s[0] == 'N' {
        Some(Tasks::NEW)
    } else if s.len() == 4 && s[0] == 'S' {
        Some(Tasks::SAVE)
    } else if s.len() == 4 && s[0] == 'Q' {
        Some(Tasks::QUIT)
    } else if s.len() == 3 && s[0] == 'A' {
        Some(Tasks::ADD)
    } else if s.len() == 6 && s[0] == 'D' {
        Some(Tasks::DELETE)
    } else if s.len() == 4 && s[0] == 'M' {
        Some(Tasks::MOVE)
    } else if s.len() == 6 && s[0] == 'R' {
        Some(Tasks::ROTATE)
    } else if s.len() == 5 && s[0] == 'S' {
        Some(Tasks::SCALE)
    } else if s.len() == 8 && s[0] == 'G' {
        Some(Tasks::GENERATE)
    } else {
        None
    }
}

/// The menu shows each task under the name of its variant, and no two tasks
/// under the same name.
pub proof fn lemma_task_names()
    ensures
        task_name(Tasks::LOAD) == "LOAD"@,
        task_name(Tasks::NEW) == "NEW"@,
        task_name(Tasks::SAVE) == "SAVE"@,
        task_name(Tasks::QUIT) == "QUIT"@,
        task_name(Tasks::ADD) == "ADD"@,
        task_name(Tasks::DELETE) == "DELETE"@,
        task_name(Tasks::MOVE) == "MOVE"@,
        task_name(Tasks::ROTATE) == "ROTATE"@,
        task_name(Tasks::SCALE) == "SCALE"@,
        task_name(Tasks::GENERATE) == "GENERATE"@,
        forall|a: Tasks, b: Tasks| #[trigger] task_name(a) == #[trigger] task_name(b) ==> a == b,
{
    reveal_strlit("LOAD");
    assert(task_name(Tasks::LOAD) =~= "LOAD"@);
    reveal_strlit("NEW");
    assert(task_name(Tasks::NEW) =~= "NEW"@);
    reveal_strlit("SAVE");
    assert(task_name(Tasks::SAVE) =~= "SAVE"@);
    reveal_strlit("QUIT");
    assert(task_name(Tasks::QUIT) =~= "QUIT"@);
    reveal_strlit("ADD");
    assert(task_name(Tasks::ADD) =~= "ADD"@);
    reveal_strlit("DELETE");
    assert(task_name(Tasks::DELETE) =~= "DELETE"@);
    reveal_strlit("MOVE");
    assert(task_name(Tasks::MOVE) =~= "MOVE"@);
    reveal_strlit("ROTATE");
    assert(task_name(Tasks::ROTATE) =~= "ROTATE"@);
    reveal_strlit("SCALE");
    assert(task_name(Tasks::SCALE) =~= "SCALE"@);
    reveal_strlit("GENERATE");
    assert(task_name(Tasks::GENERATE) =~= "GENERATE"@);
    assert forall|a: Tasks| task_of_name(#[trigger] task_name(a)) == Some(a) by {
        match a {
            Tasks::LOAD => {},
            Tasks::NEW => {},
            Tasks::SAVE => {},
            Tasks::QUIT => {},
            Tasks::ADD => {},
            Tasks::DELETE => {},
            Tasks::MOVE => {},
            Tasks::ROTATE => {},
            Tasks::SCALE => {},
            Tasks::GENERATE => {},
        }
    }
}

} // verus!
