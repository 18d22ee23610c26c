//! Settings as lines of `key=value`.
use crate::table::Table;
use crate::text::{
    chars_of, from_utf8, join, joined_by, lemma_split_joined, lemma_split_once, lines, lines_chars,
    split_once, split_once_chars, string_of, text_from_utf8_lossy, utf8, utf8_lossy, views,
    without_return,
};
use vstd::prelude::*;

verus! {

/// Settings by their keys.
#[derive(Clone, Debug)]
pub struct StringMap {
    pub table: Table<String, String>,
}

/// Settings as bytes.
pub trait StringMapExt: Sized {
    /// Whether no key occurs twice.
    spec fn is_valid(&self) -> bool;

    fn to_bytes(&self) -> (bytes: Vec<u8>)
        requires
            self.is_valid(),
    ;

    fn from_bytes(data: &[u8]) -> (map: Self)
        ensures
            map.is_valid(),
    ;
}

impl StringMap {
    pub open spec fn wf(self) -> bool {
        self.table.wf()
    }

    pub open spec fn view(&self) -> Map<Seq<char>, Seq<char>> {
        self.table@.map_values(|value: String| value@)
    }

    /// The value of a key.
    pub fn get(&self, key: &str) -> (value: Option<&String>)
        requires
            self.wf(),
        ensures
            match value {
                Some(value) => self@.dom().contains(key@) && self@[key@] == value@,
                None => !self@.dom().contains(key@),
            },
    {
        let key = key.to_string();
        self.table.get(&key)
    }

    /// Whether there is no setting.
    pub fn is_empty(&self) -> (empty: bool)
        requires
            self.wf(),
        ensures
            empty == (self@ == Map::<Seq<char>, Seq<char>>::empty()),
    {
        let count: usize = self.table.len();
        proof {
            if count == 0 {
                assert(self.table@.dom() =~= Set::empty());
                assert(self@ =~= Map::empty());
            } else {
                if self@ == Map::<Seq<char>, Seq<char>>::empty() {
                    assert(self@.dom() =~= self.table@.dom());
                    assert(self.table@.dom() =~= Set::empty());
                }
            }
        }
        count == 0
    }
}

/// One setting as a line.
pub open spec fn setting_line(setting: (Seq<char>, Seq<char>)) -> Seq<char> {
    setting.0 + seq!['='] + setting.1
}

/// Settings as lines.
pub open spec fn setting_lines(settings: Seq<(Seq<char>, Seq<char>)>) -> Seq<Seq<char>> {
    settings.map_values(|setting: (Seq<char>, Seq<char>)| setting_line(setting))
}

/// Whether settings list each key of a map once, with its value.
pub open spec fn lists(
    settings: Seq<(Seq<char>, Seq<char>)>,
    map: Map<Seq<char>, Seq<char>>,
) -> bool {
    &&& forall|i: int|
        0 <= i < settings.len() ==> map.dom().contains((#[trigger] settings[i]).0)
            && map[settings[i].0] == settings[i].1
    &&& forall|i: int, j: int|
        0 <= i < j < settings.len() ==> (#[trigger] settings[i]).0 != (#[trigger] settings[j]).0
    &&& forall|key: Seq<char>| #[trigger]
        map.dom().contains(key) ==> exists|i: int|
            0 <= i < settings.len() && (#[trigger] settings[i]).0 == key
}

/// The map that lines make: a later setting takes the place of an earlier one,
/// and a line without `=` is passed over.
pub open spec fn map_of_lines(lines: Seq<Seq<char>>) -> Map<Seq<char>, Seq<char>>
    decreases lines.len(),
{
    if lines.len() == 0 {
        Map::empty()
    } else {
        let before = map_of_lines(lines.drop_last());
        match split_once(lines.last(), seq!['=']) {
            Some((key, value)) => before.insert(key, value),
            None => before,
        }
    }
}

impl StringMapExt for StringMap {
    open spec fn is_valid(&self) -> bool {
        self.wf()
    }

    /// The settings as lines, in no order that is promised.
    fn to_bytes(&self) -> (bytes: Vec<u8>)
        ensures
            exists|settings: Seq<(Seq<char>, Seq<char>)>| #[trigger]
                lists(settings, self@) && bytes@ == utf8(
                    joined_by(setting_lines(settings), '\n'),
                ),
    {
        let ghost settings = self.table.entries@.map_values(
            |entry: (String, String)| (entry.0@, entry.1@),
        );
        let ghost all = setting_lines(settings);
        let count: usize = self.table.entries.len();
        let mut text = String::new();
        assert(all.skip(count as int) =~= Seq::empty());
        let mut i: usize = count;
        while i > 0
            invariant
                i <= count,
                count == self.table.entries@.len(),
                settings == self.table.entries@.map_values(
                    |entry: (String, String)| (entry.0@, entry.1@),
                ),
                all == setting_lines(settings),
                text@ == joined_by(all.skip(i as int), '\n'),
            decreases i,
        {
            let (key, value) = &self.table.entries[i - 1];
            let head = join(key.as_str(), "=");
            let line = join(head.as_str(), value.as_str());
            proof {
                reveal_strlit("=");
                reveal_strlit("\n");
                assert(line@ =~= setting_line((key@, value@)));
                assert(all[i - 1] == line@);
                assert(all.skip(i - 1)[0] == line@);
                assert(all.skip(i - 1).skip(1) =~= all.skip(i as int));
            }
            if i == count {
                text = line;
                assert(all.skip(i - 1).len() == 1);
            } else {
                let ended = join(line.as_str(), "\n");
                assert(ended@ =~= line@ + seq!['\n']);
                text = join(ended.as_str(), text.as_str());
            }
            i = i - 1;
        }
        proof {
            assert(all.skip(0) =~= all);
            assert forall|j: int| 0 <= j < settings.len() implies self@.dom().contains(
                (#[trigger] settings[j]).0,
            ) && self@[settings[j].0] == settings[j].1 by {
                self.table.lemma_entry(j);
            }
            let keys = crate::table::keys_of(self.table.entries@);
            assert forall|j: int, k: int| 0 <= j < k < settings.len() implies (
            #[trigger] settings[j]).0 != (#[trigger] settings[k]).0 by {
                assert(keys[j] == settings[j].0);
                assert(keys[k] == settings[k].0);
            }
            assert forall|key: Seq<char>| #[trigger] self@.dom().contains(key) implies exists|j: int|
                0 <= j < settings.len() && (#[trigger] settings[j]).0 == key by {
                assert(keys.contains(key));
                let j = keys.index_of(key);
                assert(settings[j].0 == key);
            }
            assert(lists(settings, self@));
        }
        let bytes = text.as_str().as_bytes();
        let copy = crate::octets::copy_range(bytes, 0, bytes.len());
        assert(copy@ =~= utf8(text@));
        copy
    }

    fn from_bytes(data: &[u8]) -> (map: StringMap)
        ensures
            map@ == map_of_lines(lines(utf8_lossy(data@))),
            from_utf8(data@) matches Some(text) ==> map@ == map_of_lines(lines(text)),
    {
        let content = text_from_utf8_lossy(data);
        let chars = chars_of(content.as_str());
        let parts = lines_chars(chars.as_slice());
        let ghost all = lines(utf8_lossy(data@));
        let mut map = StringMap { table: Table::new() };
        let equals = vec!['='];
        assert(equals@ =~= seq!['=']);
        assert(map@ =~= Map::empty());
        for i in 0..parts.len()
            invariant
                map.wf(),
                equals@ == seq!['='],
                views(parts@) == all,
                map@ == map_of_lines(all.take(i as int)),
        {
            assert(all.take(i + 1).drop_last() =~= all.take(i as int));
            assert(all.take(i + 1).last() == parts@[i as int]@);
            let ghost before = map@;
            if let Some((key, value)) = split_once_chars(parts[i].as_slice(), equals.as_slice()) {
                let key = string_of(key.as_slice());
                let value = string_of(value.as_slice());
                map.table.insert(key, value);
                assert(map@ =~= before.insert(key@, value@));
            }
        }
        assert(all.take(parts@.len() as int) =~= all);
        map
    }
}

/// Whether settings survive as lines: no line feed within, no `=` in a key and
/// no carriage return at the end of a value.
pub open spec fn plain_settings(settings: Seq<(Seq<char>, Seq<char>)>) -> bool {
    forall|i: int|
        0 <= i < settings.len() ==> !(#[trigger] settings[i]).0.contains('=')
            && !settings[i].0.contains('\n') && !settings[i].1.contains('\n') && (
        settings[i].1.len() > 0 ==> settings[i].1.last() != '\r')
}

/// Settings that were written as lines are read back, where they survive as
/// lines.
pub proof fn law_settings_round_trip(
    settings: Seq<(Seq<char>, Seq<char>)>,
    map: Map<Seq<char>, Seq<char>>,
)
    requires
        lists(settings, map),
        plain_settings(settings),
    ensures
        map_of_lines(lines(joined_by(setting_lines(settings), '\n'))) == map,
{
    let all = setting_lines(settings);
    let text = joined_by(all, '\n');
    if settings.len() == 0 {
        crate::text::lemma_find_is_first(text, seq!['\n']);
        assert(crate::text::find(text, seq!['\n']) is None);
        assert(lines(text) =~= Seq::empty());
        assert(map =~= Map::empty());
    } else {
        assert forall|i: int| 0 <= i < all.len() implies !(#[trigger] all[i]).contains('\n') by {
            let (key, value) = settings[i];
            let line = all[i];
            assert(line == key + seq!['='] + value);
            if line.contains('\n') {
                let at = line.index_of('\n');
                if at < key.len() {
                    assert(key[at] == '\n');
                } else if at > key.len() {
                    assert(value[at - key.len() - 1] == '\n');
                }
            }
        }
        lemma_split_joined(all, '\n');
        assert forall|i: int| 0 <= i < all.len() implies without_return(#[trigger] all[i])
            == all[i] by {
            let (key, value) = settings[i];
            assert(all[i] == key + seq!['='] + value);
            if value.len() > 0 {
                assert(all[i].last() == value.last());
            } else {
                assert(all[i].last() == '=');
            }
        }
        assert(all.last().len() > 0) by {
            assert(all.last() == setting_line(settings.last()));
        }
        assert(lines(text) =~= all);
        lemma_map_of_settings(settings, settings.len() as int);
        assert(settings.take(settings.len() as int) =~= settings);
        let made = map_of_lines(all);
        assert forall|key: Seq<char>| #[trigger] made.dom().contains(key)
            <==> map.dom().contains(key) by {
            if map.dom().contains(key) {
                let i = choose|i: int|
                    0 <= i < settings.len() && (#[trigger] settings[i]).0 == key;
                assert(settings[i].0 == key);
            }
        }
        assert forall|key: Seq<char>| #[trigger] made.dom().contains(key) implies made[key]
            == map[key] by {
            assert(map.dom().contains(key));
            let i = choose|i: int| 0 <= i < settings.len() && (#[trigger] settings[i]).0 == key;
            assert(settings[i].0 == key);
        }
        assert(made =~= map);
    }
}

proof fn lemma_map_of_settings(settings: Seq<(Seq<char>, Seq<char>)>, count: int)
    requires
        0 <= count <= settings.len(),
        plain_settings(settings),
        forall|i: int, j: int|
            0 <= i < j < settings.len() ==> (#[trigger] settings[i]).0 != (
            #[trigger] settings[j]).0,
    ensures
        ({
            let made = map_of_lines(setting_lines(settings.take(count)));
            &&& forall|i: int|
                0 <= i < count ==> made.dom().contains((#[trigger] settings[i]).0)
                    && made[settings[i].0] == settings[i].1
            &&& forall|key: Seq<char>| #[trigger]
                made.dom().contains(key) ==> exists|i: int|
                    0 <= i < count && (#[trigger] settings[i]).0 == key
        }),
    decreases count,
{
    if count > 0 {
        lemma_map_of_settings(settings, count - 1);
        let head = setting_lines(settings.take(count - 1));
        let all = setting_lines(settings.take(count));
        assert(all.drop_last() =~= head);
        let (key, value) = settings[count - 1];
        assert(all.last() == setting_line((key, value)));
        lemma_split_once(key, '=', value);
        let made = map_of_lines(all);
        assert(made == map_of_lines(head).insert(key, value));
        assert forall|i: int| 0 <= i < count implies made.dom().contains((#[trigger] settings[i]).0)
            && made[settings[i].0] == settings[i].1 by {
            if i < count - 1 {
                assert(settings[i].0 != settings[count - 1].0);
            }
        }
        assert forall|other: Seq<char>| #[trigger] made.dom().contains(other) implies exists|i: int|
            0 <= i < count && (#[trigger] settings[i]).0 == other by {
            if other == key {
                assert(settings[count - 1].0 == other);
            } else {
                assert(map_of_lines(head).dom().contains(other));
                let i = choose|i: int|
                    0 <= i < count - 1 && (#[trigger] settings[i]).0 == other;
                assert(settings[i].0 == other);
            }
        }
    }
}

/// A setting is its key, an equals sign and its value; in a list of lines a later
/// one takes the place of an earlier one with the same key, and a line without
/// an equals sign counts for nothing.
pub proof fn law_setting_lines(lines: Seq<Seq<char>>, key: Seq<char>, value: Seq<char>)
    requires
        !key.contains('='),
    ensures
        setting_line((key, value)).len() == key.len() + 1 + value.len(),
        setting_line((key, value)).take(key.len() as int) == key,
        setting_line((key, value))[key.len() as int] == '=',
        setting_line((key, value)).skip(key.len() as int + 1) == value,
        map_of_lines(Seq::empty()) == Map::<Seq<char>, Seq<char>>::empty(),
        map_of_lines(lines.push(key + seq!['='] + value)) == map_of_lines(lines).insert(key, value),
        map_of_lines(lines.push(key)) == map_of_lines(lines),
{
    let line = key + seq!['='] + value;
    assert(setting_line((key, value)) =~= line);
    assert(line.take(key.len() as int) =~= key);
    assert(line.skip(key.len() as int + 1) =~= value);
    assert(lines.push(line).drop_last() =~= lines);
    assert(lines.push(key).drop_last() =~= lines);
    crate::text::lemma_split_once(key, '=', value);
    crate::text::lemma_find_is_first(key, seq!['=']);
    if let Some(at) = crate::text::find(key, seq!['=']) {
        assert(key.subrange(at, at + 1)[0] == key[at]);
    }
}

} // verus!
