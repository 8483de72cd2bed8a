//! The exportable configuration (command aliases) and the location of the
//! shared database.
use vstd::prelude::*;
use crate::cli::{join_path, path_join};
use crate::library_db::{opt_str, Alias};
use crate::text::{chars_of, extend_str, same_chars_str, string_of};

verus! {

/// The configuration that the command line exports and imports: for now
/// its aliases, by name.
#[derive(Debug, Clone)]
pub struct RubricaConfig {
    pub aliases: Vec<(String, String)>,
}

/// The aliases as a map from name to command (a later pair wins).
pub open spec fn alias_map(pairs: Seq<(String, String)>) -> Map<Seq<char>, Seq<char>>
    decreases pairs.len(),
{
    if pairs.len() == 0 {
        Map::empty()
    } else {
        alias_map(pairs.drop_last()).insert(pairs.last().0@, pairs.last().1@)
    }
}

/// No name occurs twice.
pub open spec fn names_unique(pairs: Seq<(String, String)>) -> bool {
    forall|i: int, j: int| 0 <= i < j < pairs.len() ==> pairs[i].0@ != pairs[j].0@
}

impl RubricaConfig {
    /// Well-formed: each alias name occurs once.
    pub open spec fn wf(&self) -> bool {
        names_unique(self.aliases@)
    }

    /// The aliases by name.
    pub open spec fn alias_view(&self) -> Map<Seq<char>, Seq<char>> {
        alias_map(self.aliases@)
    }

    /// The empty configuration.
    pub fn new() -> (c: RubricaConfig)
        ensures
            c.wf(),
            c.alias_view() == Map::<Seq<char>, Seq<char>>::empty(),
    {
        RubricaConfig { aliases: Vec::new() }
    }

    /// Sets the command of an alias, replacing the one it had.
    pub fn insert_alias(&mut self, name: String, command: String)
        requires
            old(self).wf(),
        ensures
            final(self).wf(),
            final(self).alias_view() == old(self).alias_view().insert(name@, command@),
    {
        let ghost before = self.aliases@;
        let n = chars_of(name.as_str());
        let mut i: usize = 0;
        while i < self.aliases.len()
            invariant
                self.aliases@ == before,
                old(self).aliases@ == before,
                names_unique(before),
                i <= self.aliases.len(),
                n@ == name@,
                forall|k: int| 0 <= k < i ==> before[k].0@ != name@,
            decreases self.aliases.len() - i,
        {
            if same_chars_str(&n, self.aliases[i].0.as_str()) {
                let ghost nm = name;
                let ghost cm = command;
                self.aliases.set(i, (name, command));
                proof {
                    lemma_alias_map_update(before, i as int, nm, cm);
                    assert(self.aliases@ =~= before.update(i as int, (nm, cm)));
                }
                return;
            }
            i += 1;
        }
        proof {
            lemma_alias_map_absent(before, name@);
        }
        self.aliases.push((name, command));
        proof {
            assert(self.aliases@.drop_last() =~= before);
            assert(names_unique(self.aliases@));
        }
    }

    /// The configuration holding the given aliases.
    pub fn from_aliases(aliases: &Vec<Alias>) -> (c: RubricaConfig)
        ensures
            c.wf(),
            c.alias_view() == alias_map(aliases@.map_values(|a: Alias| (a.name, a.command))),
    {
        let ghost pairs = aliases@.map_values(|a: Alias| (a.name, a.command));
        let mut c = RubricaConfig::new();
        let mut i: usize = 0;
        while i < aliases.len()
            invariant
                i <= aliases.len(),
                pairs == aliases@.map_values(|a: Alias| (a.name, a.command)),
                c.wf(),
                c.alias_view() == alias_map(pairs.take(i as int)),
            decreases aliases.len() - i,
        {
            proof {
                assert(pairs.take(i + 1).drop_last() =~= pairs.take(i as int));
                assert(pairs.take(i + 1).last() == (aliases@[i as int].name, aliases@[i as int].command));
            }
            c.insert_alias(aliases[i].name.clone(), aliases[i].command.clone());
            i += 1;
        }
        assert(pairs.take(aliases.len() as int) =~= pairs);
        c
    }
}

/// With unique names, an alias that is present maps from its name.
proof fn lemma_alias_map_has(pairs: Seq<(String, String)>, i: int)
    requires
        names_unique(pairs),
        0 <= i < pairs.len(),
    ensures
        alias_map(pairs).contains_key(pairs[i].0@),
        alias_map(pairs)[pairs[i].0@] == pairs[i].1@,
    decreases pairs.len(),
{
    if i < pairs.len() - 1 {
        lemma_alias_map_has(pairs.drop_last(), i);
    }
}

/// A name that no pair has is not in the map.
proof fn lemma_alias_map_absent(pairs: Seq<(String, String)>, name: Seq<char>)
    requires
        forall|k: int| 0 <= k < pairs.len() ==> pairs[k].0@ != name,
    ensures
        !alias_map(pairs).contains_key(name),
    decreases pairs.len(),
{
    if pairs.len() > 0 {
        lemma_alias_map_absent(pairs.drop_last(), name);
    }
}

/// Replacing the command of the pair at `i` updates the map at its name.
proof fn lemma_alias_map_update(pairs: Seq<(String, String)>, i: int, name: String, command: String)
    requires
        names_unique(pairs),
        0 <= i < pairs.len(),
        pairs[i].0@ == name@,
    ensures
        names_unique(pairs.update(i, (name, command))),
        alias_map(pairs.update(i, (name, command))) == alias_map(pairs).insert(name@, command@),
    decreases pairs.len(),
{
    let up = pairs.update(i, (name, command));
    if i == pairs.len() - 1 {
        assert(up.drop_last() =~= pairs.drop_last());
        lemma_alias_map_absent(pairs.drop_last(), name@);
        assert(alias_map(up) =~= alias_map(pairs).insert(name@, command@));
    } else {
        lemma_alias_map_update(pairs.drop_last(), i, name, command);
        assert(up.drop_last() =~= pairs.drop_last().update(i, (name, command)));
        assert(up.last() == pairs.last());
        assert(pairs.last().0@ != name@);
        assert(alias_map(up) =~= alias_map(pairs).insert(name@, command@));
    }
}

/// An alias reads back as it was last set, and setting it leaves the other
/// aliases as they were.
pub proof fn lemma_alias_read_after_write(before: Map<Seq<char>, Seq<char>>, after: Map<Seq<char>, Seq<char>>, name: Seq<char>, command: Seq<char>, other: Seq<char>)
    requires
        after == before.insert(name, command),
        other != name,
    ensures
        after.contains_key(name) && after[name] == command,
        after.contains_key(other) == before.contains_key(other),
        before.contains_key(other) ==> after[other] == before[other],
{
}

/// The shared database's location, as the XDG standard places it:
/// `$XDG_DATA_HOME/rubrica/library.db`, else
/// `$HOME/.local/share/rubrica/library.db`, else `./rubrica/library.db`.
pub open spec fn db_path_of(xdg_data_home: Option<Seq<char>>, home: Option<Seq<char>>) -> Seq<char> {
    let base = match xdg_data_home {
        Some(x) => x,
        None => match home {
            Some(h) => path_join(path_join(h, ".local"@), "share"@),
            None => "."@,
        },
    };
    path_join(path_join(base, "rubrica"@), "library.db"@)
}

/// The path of the database shared by the command line and the desktop
/// application, from the values of `XDG_DATA_HOME` and `HOME`.
pub fn default_db_path(xdg_data_home: Option<&str>, home: Option<&str>) -> (r: String)
    ensures
        r@ == db_path_of(opt_str(xdg_data_home), opt_str(home)),
{
    let base = match xdg_data_home {
        Some(x) => x.to_string(),
        None => match home {
            Some(h) => {
                let local = join_path(h, ".local");
                join_path(local.as_str(), "share")
            },
            None => ".".to_string(),
        },
    };
    let dir = join_path(base.as_str(), "rubrica");
    join_path(dir.as_str(), "library.db")
}

/// The SQLite URL of a database file.
pub fn default_db_url(path: &str) -> (r: String)
    ensures
        r@ == "sqlite://"@ + path@,
{
    let mut v: Vec<char> = Vec::new();
    extend_str(&mut v, "sqlite://");
    extend_str(&mut v, path);
    string_of(&v)
}

} // verus!
