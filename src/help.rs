//! The key commands that the help overlay lists.

use vstd::prelude::*;

verus! {

/// A command table: each key once, with its description, in insertion order.
pub type CommandEntries = Seq<(Seq<char>, Seq<char>)>;

/// The index of the last entry of `es` whose key is `key`, or -1 when there is none.
pub open spec fn key_pos(es: CommandEntries, key: Seq<char>) -> int
    decreases es.len(),
{
    if es.len() == 0 {
        -1
    } else if es.last().0 == key {
        es.len() - 1
    } else {
        key_pos(es.drop_last(), key)
    }
}

/// No two entries of `es` share a key.
pub open spec fn keys_unique(es: CommandEntries) -> bool {
    forall|i: int, j: int| 0 <= i < j < es.len() ==> (#[trigger] es[i]).0 != (#[trigger] es[j]).0
}

/// What `key_pos` is: the index of an entry with `key`, or -1 when no entry has it.
proof fn lemma_key_pos(es: CommandEntries, key: Seq<char>)
    ensures
        -1 <= key_pos(es, key) < es.len(),
        key_pos(es, key) >= 0 ==> es[key_pos(es, key)].0 == key,
        key_pos(es, key) == -1 ==> forall|i: int| 0 <= i < es.len() ==> (#[trigger] es[i]).0 != key,
    decreases es.len(),
{
    if es.len() > 0 && es.last().0 != key {
        lemma_key_pos(es.drop_last(), key);
        assert forall|i: int| 0 <= i < es.len() - 1 implies es.drop_last()[i] == es[i] by {}
    }
}

/// The table `es` with `key` bound to `description`: the existing entry is
/// updated in place, or a new one is added at the end.
pub open spec fn with_command(es: CommandEntries, key: Seq<char>, description: Seq<char>) -> CommandEntries {
    if key_pos(es, key) >= 0 {
        es.update(key_pos(es, key), (key, description))
    } else {
        es.push((key, description))
    }
}

/// Two keys of different lengths or first characters differ.
proof fn lemma_keys_differ(a: Seq<char>, b: Seq<char>)
    requires
        a.len() != b.len() || (a.len() > 0 && b.len() > 0 && a[0] != b[0]),
    ensures
        a != b,
{
}

/// A key that no entry holds has no position.
proof fn lemma_key_absent(es: CommandEntries, key: Seq<char>)
    requires
        forall|i: int| 0 <= i < es.len() ==> (#[trigger] es[i]).0 != key,
    ensures
        key_pos(es, key) == -1,
    decreases es.len(),
{
    if es.len() > 0 {
        assert(es.last() == es[es.len() - 1]);
        assert forall|i: int| 0 <= i < es.drop_last().len() implies (#[trigger] es.drop_last()[i]).0 != key by {
            assert(es.drop_last()[i] == es[i]);
        }
        lemma_key_absent(es.drop_last(), key);
    }
}

/// A titled group of key commands.
pub struct KeyMap {
    title: String,
    commands: Vec<(String, String)>,
}

impl KeyMap {
    /// The title of the group.
    pub closed spec fn title_seq(&self) -> Seq<char> {
        self.title@
    }

    /// Each key appears once.
    pub open spec fn wf(&self) -> bool {
        keys_unique(self.entries())
    }

    /// The commands, in order.
    pub closed spec fn entries(&self) -> CommandEntries {
        self.commands@.map_values(|e: (String, String)| (e.0@, e.1@))
    }

    /// The commands available everywhere.
    pub fn global_key_commands_default() -> (r: KeyMap)
        ensures
            r.wf(),
            r.title_seq() == "Global commands"@,
            r.entries() == seq![
                ("q"@, "Quit the application"@),
                ("?"@, "Toggle the help menu"@),
            ],
    {
        let mut map = KeyMap { title: String::from_str("Global commands"), commands: Vec::new() };
        proof {
            assert(map.entries() =~= Seq::empty());
            reveal_strlit("q");
            reveal_strlit("?");
        }
        proof {
            lemma_key_absent(map.entries(), "q"@);
        }
        map.insert_command("q", "Quit the application");
        proof {
            assert(map.entries() =~= seq![("q"@, "Quit the application"@)]);
        }
        proof {
            lemma_keys_differ("q"@, "?"@);
            lemma_key_absent(map.entries(), "?"@);
        }
        map.insert_command("?", "Toggle the help menu");
        proof {
            assert(map.entries() =~= seq![("q"@, "Quit the application"@), ("?"@, "Toggle the help menu"@)]);
        }
        map
    }

    /// The commands of the task list.
    #[verifier::rlimit(50)]
    pub fn task_list_key_commands_default() -> (r: KeyMap)
        ensures
            r.wf(),
            r.title_seq() == "Task list commands"@,
            r.entries() == seq![
                ("j"@, "Go up one task"@),
                ("k"@, "Go down one task"@),
                ("h"@, "Go up one level"@),
                ("l"@, "Go down one level"@),
                ("i"@, "Edit the task title from the beginning"@),
                ("a"@, "Edit the task title from the end"@),
                ("c"@, "Delete the task title and start editing"@),
                ("o"@, "Add a new task below"@),
                ("O"@, "Add a new task above"@),
                ("d"@, "Delete the current task"@),
                ("v"@, "Enter selection mode."@),
                ("TAB"@, "Move the task down one level"@),
                ("SHIFT+TAB"@, "Move the task up one level"@),
                ("SPACE"@, "Change the task status"@),
            ],
    {
        let mut map = KeyMap { title: String::from_str("Task list commands"), commands: Vec::new() };
        proof {
            assert(map.entries() =~= Seq::empty());
            reveal_strlit("j");
            reveal_strlit("k");
            reveal_strlit("h");
            reveal_strlit("l");
            reveal_strlit("i");
            reveal_strlit("a");
            reveal_strlit("c");
            reveal_strlit("o");
            reveal_strlit("O");
            reveal_strlit("d");
            reveal_strlit("v");
            reveal_strlit("TAB");
            reveal_strlit("SHIFT+TAB");
            reveal_strlit("SPACE");
        }
        proof {
            lemma_key_absent(map.entries(), "j"@);
        }
        map.insert_command("j", "Go up one task");
        proof {
            assert(map.entries() =~= seq![("j"@, "Go up one task"@)]);
        }
        proof {
            lemma_keys_differ("j"@, "k"@);
            lemma_key_absent(map.entries(), "k"@);
        }
        map.insert_command("k", "Go down one task");
        proof {
            assert(map.entries() =~= seq![("j"@, "Go up one task"@), ("k"@, "Go down one task"@)]);
        }
        proof {
            lemma_keys_differ("j"@, "h"@);
            lemma_keys_differ("k"@, "h"@);
            lemma_key_absent(map.entries(), "h"@);
        }
        map.insert_command("h", "Go up one level");
        proof {
            assert(map.entries() =~= seq![("j"@, "Go up one task"@), ("k"@, "Go down one task"@), ("h"@, "Go up one level"@)]);
        }
        proof {
            lemma_keys_differ("j"@, "l"@);
            lemma_keys_differ("k"@, "l"@);
            lemma_keys_differ("h"@, "l"@);
            lemma_key_absent(map.entries(), "l"@);
        }
        map.insert_command("l", "Go down one level");
        proof {
            assert(map.entries() =~= seq![("j"@, "Go up one task"@), ("k"@, "Go down one task"@), ("h"@, "Go up one level"@), ("l"@, "Go down one level"@)]);
        }
        proof {
            lemma_keys_differ("j"@, "i"@);
            lemma_keys_differ("k"@, "i"@);
            lemma_keys_differ("h"@, "i"@);
            lemma_keys_differ("l"@, "i"@);
            lemma_key_absent(map.entries(), "i"@);
        }
        map.insert_command("i", "Edit the task title from the beginning");
        proof {
            assert(map.entries() =~= seq![("j"@, "Go up one task"@), ("k"@, "Go down one task"@), ("h"@, "Go up one level"@), ("l"@, "Go down one level"@), ("i"@, "Edit the task title from the beginning"@)]);
        }
        proof {
            lemma_keys_differ("j"@, "a"@);
            lemma_keys_differ("k"@, "a"@);
            lemma_keys_differ("h"@, "a"@);
            lemma_keys_differ("l"@, "a"@);
            lemma_keys_differ("i"@, "a"@);
            lemma_key_absent(map.entries(), "a"@);
        }
        map.insert_command("a", "Edit the task title from the end");
        proof {
            assert(map.entries() =~= seq![("j"@, "Go up one task"@), ("k"@, "Go down one task"@), ("h"@, "Go up one level"@), ("l"@, "Go down one level"@), ("i"@, "Edit the task title from the beginning"@), ("a"@, "Edit the task title from the end"@)]);
        }
        proof {
            lemma_keys_differ("j"@, "c"@);
            lemma_keys_differ("k"@, "c"@);
            lemma_keys_differ("h"@, "c"@);
            lemma_keys_differ("l"@, "c"@);
            lemma_keys_differ("i"@, "c"@);
            lemma_keys_differ("a"@, "c"@);
            lemma_key_absent(map.entries(), "c"@);
        }
        map.insert_command("c", "Delete the task title and start editing");
        proof {
            assert(map.entries() =~= seq![("j"@, "Go up one task"@), ("k"@, "Go down one task"@), ("h"@, "Go up one level"@), ("l"@, "Go down one level"@), ("i"@, "Edit the task title from the beginning"@), ("a"@, "Edit the task title from the end"@), ("c"@, "Delete the task title and start editing"@)]);
        }
        proof {
            lemma_keys_differ("j"@, "o"@);
            lemma_keys_differ("k"@, "o"@);
            lemma_keys_differ("h"@, "o"@);
            lemma_keys_differ("l"@, "o"@);
            lemma_keys_differ("i"@, "o"@);
            lemma_keys_differ("a"@, "o"@);
            lemma_keys_differ("c"@, "o"@);
            lemma_key_absent(map.entries(), "o"@);
        }
        map.insert_command("o", "Add a new task below");
        proof {
            assert(map.entries() =~= seq![("j"@, "Go up one task"@), ("k"@, "Go down one task"@), ("h"@, "Go up one level"@), ("l"@, "Go down one level"@), ("i"@, "Edit the task title from the beginning"@), ("a"@, "Edit the task title from the end"@), ("c"@, "Delete the task title and start editing"@), ("o"@, "Add a new task below"@)]);
        }
        proof {
            lemma_keys_differ("j"@, "O"@);
            lemma_keys_differ("k"@, "O"@);
            lemma_keys_differ("h"@, "O"@);
            lemma_keys_differ("l"@, "O"@);
            lemma_keys_differ("i"@, "O"@);
            lemma_keys_differ("a"@, "O"@);
            lemma_keys_differ("c"@, "O"@);
            lemma_keys_differ("o"@, "O"@);
            lemma_key_absent(map.entries(), "O"@);
        }
        map.insert_command("O", "Add a new task above");
        proof {
            assert(map.entries() =~= seq![("j"@, "Go up one task"@), ("k"@, "Go down one task"@), ("h"@, "Go up one level"@), ("l"@, "Go down one level"@), ("i"@, "Edit the task title from the beginning"@), ("a"@, "Edit the task title from the end"@), ("c"@, "Delete the task title and start editing"@), ("o"@, "Add a new task below"@), ("O"@, "Add a new task above"@)]);
        }
        proof {
            lemma_keys_differ("j"@, "d"@);
            lemma_keys_differ("k"@, "d"@);
            lemma_keys_differ("h"@, "d"@);
            lemma_keys_differ("l"@, "d"@);
            lemma_keys_differ("i"@, "d"@);
            lemma_keys_differ("a"@, "d"@);
            lemma_keys_differ("c"@, "d"@);
            lemma_keys_differ("o"@, "d"@);
            lemma_keys_differ("O"@, "d"@);
            lemma_key_absent(map.entries(), "d"@);
        }
        map.insert_command("d", "Delete the current task");
        proof {
            assert(map.entries() =~= seq![("j"@, "Go up one task"@), ("k"@, "Go down one task"@), ("h"@, "Go up one level"@), ("l"@, "Go down one level"@), ("i"@, "Edit the task title from the beginning"@), ("a"@, "Edit the task title from the end"@), ("c"@, "Delete the task title and start editing"@), ("o"@, "Add a new task below"@), ("O"@, "Add a new task above"@), ("d"@, "Delete the current task"@)]);
        }
        proof {
            lemma_keys_differ("j"@, "v"@);
            lemma_keys_differ("k"@, "v"@);
            lemma_keys_differ("h"@, "v"@);
            lemma_keys_differ("l"@, "v"@);
            lemma_keys_differ("i"@, "v"@);
            lemma_keys_differ("a"@, "v"@);
            lemma_keys_differ("c"@, "v"@);
            lemma_keys_differ("o"@, "v"@);
            lemma_keys_differ("O"@, "v"@);
            lemma_keys_differ("d"@, "v"@);
            lemma_key_absent(map.entries(), "v"@);
        }
        map.insert_command("v", "Enter selection mode.");
        proof {
            assert(map.entries() =~= seq![("j"@, "Go up one task"@), ("k"@, "Go down one task"@), ("h"@, "Go up one level"@), ("l"@, "Go down one level"@), ("i"@, "Edit the task title from the beginning"@), ("a"@, "Edit the task title from the end"@), ("c"@, "Delete the task title and start editing"@), ("o"@, "Add a new task below"@), ("O"@, "Add a new task above"@), ("d"@, "Delete the current task"@), ("v"@, "Enter selection mode."@)]);
        }
        proof {
            lemma_keys_differ("j"@, "TAB"@);
            lemma_keys_differ("k"@, "TAB"@);
            lemma_keys_differ("h"@, "TAB"@);
            lemma_keys_differ("l"@, "TAB"@);
            lemma_keys_differ("i"@, "TAB"@);
            lemma_keys_differ("a"@, "TAB"@);
            lemma_keys_differ("c"@, "TAB"@);
            lemma_keys_differ("o"@, "TAB"@);
            lemma_keys_differ("O"@, "TAB"@);
            lemma_keys_differ("d"@, "TAB"@);
            lemma_keys_differ("v"@, "TAB"@);
            lemma_key_absent(map.entries(), "TAB"@);
        }
        map.insert_command("TAB", "Move the task down one level");
        proof {
            assert(map.entries() =~= seq![("j"@, "Go up one task"@), ("k"@, "Go down one task"@), ("h"@, "Go up one level"@), ("l"@, "Go down one level"@), ("i"@, "Edit the task title from the beginning"@), ("a"@, "Edit the task title from the end"@), ("c"@, "Delete the task title and start editing"@), ("o"@, "Add a new task below"@), ("O"@, "Add a new task above"@), ("d"@, "Delete the current task"@), ("v"@, "Enter selection mode."@), ("TAB"@, "Move the task down one level"@)]);
        }
        proof {
            lemma_keys_differ("j"@, "SHIFT+TAB"@);
            lemma_keys_differ("k"@, "SHIFT+TAB"@);
            lemma_keys_differ("h"@, "SHIFT+TAB"@);
            lemma_keys_differ("l"@, "SHIFT+TAB"@);
            lemma_keys_differ("i"@, "SHIFT+TAB"@);
            lemma_keys_differ("a"@, "SHIFT+TAB"@);
            lemma_keys_differ("c"@, "SHIFT+TAB"@);
            lemma_keys_differ("o"@, "SHIFT+TAB"@);
            lemma_keys_differ("O"@, "SHIFT+TAB"@);
            lemma_keys_differ("d"@, "SHIFT+TAB"@);
            lemma_keys_differ("v"@, "SHIFT+TAB"@);
            lemma_keys_differ("TAB"@, "SHIFT+TAB"@);
            lemma_key_absent(map.entries(), "SHIFT+TAB"@);
        }
        map.insert_command("SHIFT+TAB", "Move the task up one level");
        proof {
            assert(map.entries() =~= seq![("j"@, "Go up one task"@), ("k"@, "Go down one task"@), ("h"@, "Go up one level"@), ("l"@, "Go down one level"@), ("i"@, "Edit the task title from the beginning"@), ("a"@, "Edit the task title from the end"@), ("c"@, "Delete the task title and start editing"@), ("o"@, "Add a new task below"@), ("O"@, "Add a new task above"@), ("d"@, "Delete the current task"@), ("v"@, "Enter selection mode."@), ("TAB"@, "Move the task down one level"@), ("SHIFT+TAB"@, "Move the task up one level"@)]);
        }
        proof {
            lemma_keys_differ("j"@, "SPACE"@);
            lemma_keys_differ("k"@, "SPACE"@);
            lemma_keys_differ("h"@, "SPACE"@);
            lemma_keys_differ("l"@, "SPACE"@);
            lemma_keys_differ("i"@, "SPACE"@);
            lemma_keys_differ("a"@, "SPACE"@);
            lemma_keys_differ("c"@, "SPACE"@);
            lemma_keys_differ("o"@, "SPACE"@);
            lemma_keys_differ("O"@, "SPACE"@);
            lemma_keys_differ("d"@, "SPACE"@);
            lemma_keys_differ("v"@, "SPACE"@);
            lemma_keys_differ("TAB"@, "SPACE"@);
            lemma_keys_differ("SHIFT+TAB"@, "SPACE"@);
            lemma_key_absent(map.entries(), "SPACE"@);
        }
        map.insert_command("SPACE", "Change the task status");
        proof {
            assert(map.entries() =~= seq![("j"@, "Go up one task"@), ("k"@, "Go down one task"@), ("h"@, "Go up one level"@), ("l"@, "Go down one level"@), ("i"@, "Edit the task title from the beginning"@), ("a"@, "Edit the task title from the end"@), ("c"@, "Delete the task title and start editing"@), ("o"@, "Add a new task below"@), ("O"@, "Add a new task above"@), ("d"@, "Delete the current task"@), ("v"@, "Enter selection mode."@), ("TAB"@, "Move the task down one level"@), ("SHIFT+TAB"@, "Move the task up one level"@), ("SPACE"@, "Change the task status"@)]);
        }
        map
    }

    /// Binds `key` to `description`, replacing the description of a key that is
    /// already there.
    pub fn insert_command(&mut self, key: &str, description: &str) -> (r: &mut Self)
        ensures
            old(self).wf() ==> r.wf(),
            r.title_seq() == old(self).title_seq(),
            r.entries() == with_command(old(self).entries(), key@, description@),
            *final(self) == *final(r),
    {
        let ghost es = self.entries();
        let wanted = key.to_owned();
        let mut i: usize = self.commands.len();
        let ghost title = self.title@;
        proof {
            assert(es.take(i as int) =~= es);
        }
        while i > 0
            invariant
                i <= self.commands@.len(),
                self.title@ == title,
                title == old(self).title@,
                es == old(self).entries(),
                es == self.entries(),
                wanted@ == key@,
                key_pos(es, key@) == key_pos(es.take(i as int), key@),
            decreases i,
        {
            proof {
                assert(es.take(i as int).drop_last() =~= es.take(i - 1));
                assert(es[i - 1] == (self.commands@[i - 1].0@, self.commands@[i - 1].1@));
            }
            if self.commands[i - 1].0 == wanted {
                self.commands[i - 1].1 = description.to_owned();
                proof {
                    assert(key_pos(es.take(i as int), key@) == i - 1);

                    assert(self.entries() =~= es.update(i - 1, (key@, description@)));
                    if keys_unique(es) {
                        assert forall|a: int, b: int|
                            0 <= a < b < es.len() implies (#[trigger] self.entries()[a]).0 != (
                            #[trigger] self.entries()[b]).0 by {
                            assert(self.entries()[a].0 == es[a].0);
                            assert(self.entries()[b].0 == es[b].0);
                        }
                    }
                }
                return self;
            }
            i -= 1;
        }
        self.commands.push((wanted, description.to_owned()));
        proof {
            lemma_key_pos(es, key@);
            assert(es.take(0) =~= Seq::<(Seq<char>, Seq<char>)>::empty());
            assert(self.entries() =~= es.push((key@, description@)));
        }
        self
    }

    /// The title of the group.
    pub fn title(&self) -> (r: &str)
        ensures
            r@ == self.title_seq(),
    {
        self.title.as_str()
    }

    /// The commands, as (key, description) pairs in order.
    pub fn commands(&self) -> (r: &Vec<(String, String)>)
        ensures
            r@.map_values(|e: (String, String)| (e.0@, e.1@)) == self.entries(),
    {
        &self.commands
    }
}

} // verus!
