//! Names for files of a beatmapset, and the asset store that looks files up by
//! the names a beatmap gives them.
use vstd::prelude::*;
use crate::text::{
    ascii_lowercase, char_is_ws, chars_of, eq_ignore_ascii_case, is_ws, same_text, split,
    split_vec, string_of, sub_vec, trim, trim_vec, views,
};

verus! {

/// The characters Windows refuses in file names.
pub open spec fn forbidden_in_name(c: char) -> bool {
    c == '<' || c == '>' || c == ':' || c == '"' || c == '/' || c == '\\' || c == '|' || c == '?'
        || c == '*' || (c as u32) < 0x20
}

pub open spec fn name_char(c: char) -> char {
    if forbidden_in_name(c) {
        '_'
    } else {
        c
    }
}

/// What Windows refuses at the end of a name: a dot, or white space.
pub open spec fn name_tail_char(c: char) -> bool {
    c == '.' || is_ws(c)
}

/// The number of dots and white-space characters at the end of `s`.
pub open spec fn name_tail_len(s: Seq<char>) -> nat
    decreases s.len(),
{
    if s.len() > 0 && name_tail_char(s.last()) {
        1 + name_tail_len(s.drop_last())
    } else {
        0
    }
}

/// `name_tail_len` is the length of the longest suffix of dots and white space.
proof fn lemma_name_tail_len(s: Seq<char>, k: int)
    requires
        0 <= k <= s.len(),
        forall|i: int| s.len() - k <= i < s.len() ==> name_tail_char(#[trigger] s[i]),
        k < s.len() ==> !name_tail_char(s[s.len() - k - 1]),
    ensures
        name_tail_len(s) == k,
    decreases s.len(),
{
    if k > 0 {
        assert(name_tail_char(s[s.len() - 1]));
        let t = s.drop_last();
        assert forall|i: int| t.len() - (k - 1) <= i < t.len() implies name_tail_char(#[trigger] t[i]) by {
            assert(t[i] == s[i]);
        }
        if k < s.len() {
            assert(t[t.len() - (k - 1) - 1] == s[s.len() - k - 1]);
        }
        lemma_name_tail_len(t, k - 1);
    }
}

/// `input` with forbidden characters replaced by `_`, trailing dots and white
/// space removed (as often as a strip and a trim expose more of them), then
/// trimmed; `unnamed` where nothing is left. Windows refuses names that end
/// in a dot or a space.
pub open spec fn sanitized(input: Seq<char>) -> Seq<char> {
    let m = input.map_values(|c: char| name_char(c));
    let stripped = m.take(m.len() - name_tail_len(m));
    let t = trim(stripped);
    if t.len() == 0 {
        "unnamed"@
    } else {
        t
    }
}

fn is_forbidden(c: char) -> (r: bool)
    ensures
        r == forbidden_in_name(c),
{
    c == '<' || c == '>' || c == ':' || c == '"' || c == '/' || c == '\\' || c == '|' || c == '?'
        || c == '*' || (c as u32) < 0x20
}

/// Makes a string safe as a Windows file or folder name.
pub fn sanitize_name(input: &str) -> (r: String)
    ensures
        r@ == sanitized(input@),
        r@.len() > 0,
        forall|i: int| 0 <= i < r@.len() ==> !forbidden_in_name(#[trigger] r@[i]),
        r@.last() != '.' && r@.last() != ' ',
{
    let v = chars_of(input);
    let mut out: Vec<char> = Vec::new();
    let mut i: usize = 0;
    let ghost m = input@.map_values(|c: char| name_char(c));
    while i < v.len()
        invariant
            i <= v.len(),
            v@ == input@,
            m == input@.map_values(|c: char| name_char(c)),
            out@ == m.take(i as int),
        decreases v.len() - i,
    {
        let c = v[i];
        if is_forbidden(c) {
            out.push('_');
        } else {
            out.push(c);
        }
        i += 1;
        assert(out@ =~= m.take(i as int));
    }
    assert(m.take(v.len() as int) =~= m);
    let mut j = out.len();
    while j > 0 && (out[j - 1] == '.' || char_is_ws(out[j - 1]))
        invariant
            j <= out.len(),
            out@ == m,
            forall|k: int| j <= k < m.len() ==> name_tail_char(#[trigger] m[k]),
        decreases j,
    {
        j -= 1;
    }
    proof {
        lemma_name_tail_len(m, m.len() - j);
    }
    let stripped = sub_vec(&out, 0, j);
    assert(stripped@ =~= m.take(m.len() - name_tail_len(m)));
    let t = trim_vec(&stripped);
    proof {
        let s1 = crate::text::trim_start(stripped@);
        crate::text::lemma_lead_ws_bound(stripped@);
        if s1.len() > 0 {
            assert(s1.last() == stripped@.last());
            assert(stripped@.last() == m[j - 1]);
            assert(!name_tail_char(s1.last()));
            crate::text::lemma_trail_ws_char(s1, 0);
            assert(t@ == s1);
        } else {
            crate::text::lemma_trail_ws_bound(s1);
        }
    }
    proof {
        assert forall|k: int| 0 <= k < m.len() implies !forbidden_in_name(#[trigger] m[k]) by {}
        crate::text::lemma_lead_ws_bound(stripped@);
        crate::text::lemma_trail_ws_bound(stripped@.skip(crate::text::lead_ws(stripped@) as int));
        assert forall|k: int| 0 <= k < t@.len() implies !forbidden_in_name(#[trigger] t@[k]) by {
            let a = crate::text::lead_ws(stripped@) as int;
            assert(t@[k] == stripped@[k + a]);
            assert(stripped@[k + a] == m[k + a]);
        }
    }
    if t.len() == 0 {
        proof {
            reveal_strlit("unnamed");
        }
        let u = chars_of("unnamed");
        assert(u@.last() == 'd');
        string_of(&u)
    } else {
        string_of(&t)
    }
}

/// A path component that names something: not empty and not `.`.
pub open spec fn named_component(c: Seq<char>) -> bool {
    c.len() > 0 && c != "."@
}

/// The named components of a `/`-separated path, in order.
pub open spec fn named_components(ps: Seq<Seq<char>>) -> Seq<Seq<char>>
    decreases ps.len(),
{
    if ps.len() == 0 {
        seq![]
    } else {
        let prev = named_components(ps.drop_last());
        if named_component(ps.last()) {
            prev.push(ps.last())
        } else {
            prev
        }
    }
}

/// `Path::file_name` for `/`-separated paths: the last component, unless
/// there is none or it is `..`.
pub open spec fn file_name(path: Seq<char>) -> Option<Seq<char>> {
    let cs = named_components(split(path, '/'));
    if cs.len() == 0 || cs.last() == ".."@ {
        None
    } else {
        Some(cs.last())
    }
}

/// The last component of a path.
pub fn path_file_name(path: &Vec<char>) -> (r: Option<Vec<char>>)
    ensures
        r is Some <==> file_name(path@) is Some,
        r matches Some(n) ==> file_name(path@) == Some(n@),
{
    let ps = split_vec(path, '/');
    let ghost all = views(ps@);
    let dot = chars_of(".");
    let dotdot = chars_of("..");
    let mut i = ps.len();
    assert(all.take(i as int) =~= all);
    while i > 0 && !(ps[i - 1].len() > 0 && !same_text(&ps[i - 1], &dot))
        invariant
            i <= ps.len(),
            all == views(ps@),
            dot@ == "."@,
            named_components(all) == named_components(all.take(i as int)),
        decreases i,
    {
        assert(all.take(i as int).drop_last() =~= all.take(i - 1));
        i -= 1;
    }
    if i == 0 {
        assert(all.take(0) =~= Seq::<Seq<char>>::empty());
        return None;
    }
    assert(all.take(i as int).drop_last() =~= all.take(i - 1));
    if same_text(&ps[i - 1], &dotdot) {
        return None;
    }
    Some(sub_vec(&ps[i - 1], 0, ps[i - 1].len()))
}

/// The name an asset is looked up by: trimmed, one pair of surrounding quotes
/// and the whitespace inside them removed, `\` turned into `/`, and a leading
/// `./` removed.
pub open spec fn normalized_name(name: Seq<char>) -> Seq<char> {
    let a = trim(name);
    let b = if a.len() >= 2 && a[0] == '"' && a.last() == '"' {
        trim(a.subrange(1, a.len() - 1))
    } else {
        trim(a)
    };
    let c = b.map_values(|ch: char| if ch == '\\' { '/' } else { ch });
    if c.len() >= 2 && c[0] == '.' && c[1] == '/' {
        c.skip(2)
    } else {
        c
    }
}

fn normalize_name(name: &str) -> (r: Vec<char>)
    ensures
        r@ == normalized_name(name@),
{
    let a = trim_vec(&chars_of(name));
    let b = if a.len() >= 2 && a[0] == '"' && a[a.len() - 1] == '"' {
        trim_vec(&sub_vec(&a, 1, a.len() - 1))
    } else {
        trim_vec(&a)
    };
    let mut c: Vec<char> = Vec::new();
    let mut i: usize = 0;
    while i < b.len()
        invariant
            i <= b.len(),
            c@ == b@.take(i as int).map_values(|ch: char| if ch == '\\' { '/' } else { ch }),
        decreases b.len() - i,
    {
        if b[i] == '\\' {
            c.push('/');
        } else {
            c.push(b[i]);
        }
        i += 1;
        assert(c@ =~= b@.take(i as int).map_values(|ch: char| if ch == '\\' { '/' } else { ch }));
    }
    assert(b@.take(b.len() as int) =~= b@);
    if c.len() >= 2 && c[0] == '.' && c[1] == '/' {
        sub_vec(&c, 2, c.len())
    } else {
        c
    }
}

/// The files of a beatmapset's `assets` folder, by relative path.
pub struct AssetsFolder {
    assets: Vec<(String, Vec<u8>)>,
}

/// The paths and contents of a sequence of assets.
pub open spec fn asset_entries(es: Seq<(String, Vec<u8>)>) -> Seq<(Seq<char>, Seq<u8>)> {
    es.map_values(|e: (String, Vec<u8>)| (e.0@, e.1@))
}

/// No path comes twice.
pub open spec fn distinct_paths(es: Seq<(Seq<char>, Seq<u8>)>) -> bool {
    forall|i: int, j: int| 0 <= i < j < es.len() ==> es[i].0 != es[j].0
}

/// The contents stored under exactly `path`.
pub open spec fn exact_asset(es: Seq<(Seq<char>, Seq<u8>)>, path: Seq<char>) -> Option<Seq<u8>> {
    if exists|i: int| 0 <= i < es.len() && #[trigger] es[i].0 == path {
        let i = choose|i: int| 0 <= i < es.len() && #[trigger] es[i].0 == path;
        Some(es[i].1)
    } else {
        None
    }
}

/// A stored path that a lookup of `name` falls back to: equal to it ignoring
/// ASCII case, or with a file name equal to its file name (the whole name
/// where it has none) ignoring ASCII case.
pub open spec fn loose_match(path: Seq<char>, name: Seq<char>) -> bool {
    let target = match file_name(name) {
        Some(f) => f,
        None => name,
    };
    ||| ascii_lowercase(path) == ascii_lowercase(name)
    ||| (file_name(path) matches Some(pf) && ascii_lowercase(pf) == ascii_lowercase(target))
}

impl AssetsFolder {
    pub closed spec fn entries(self) -> Seq<(Seq<char>, Seq<u8>)> {
        asset_entries(self.assets@)
    }

    #[verifier::type_invariant]
    closed spec fn paths_distinct(self) -> bool {
        distinct_paths(asset_entries(self.assets@))
    }

    /// An empty folder.
    pub fn new() -> (r: AssetsFolder)
        ensures
            r.entries().len() == 0,
    {
        AssetsFolder { assets: Vec::new() }
    }

    /// The contents of the asset that a beatmap names `name`: the one stored
    /// under the normalized name, or else one whose path matches it loosely.
    pub fn get(&self, name: &str) -> (r: Option<&Vec<u8>>)
        ensures
            exact_asset(self.entries(), normalized_name(name@)) matches Some(d) ==> (r matches Some(
                v,
            ) && v@ == d),
            exact_asset(self.entries(), normalized_name(name@)) is None ==> (r is Some <==> exists|
                i: int,
            |
                0 <= i < self.entries().len() && loose_match(
                    #[trigger] self.entries()[i].0,
                    normalized_name(name@),
                )),
            exact_asset(self.entries(), normalized_name(name@)) is None ==> (r matches Some(v)
                ==> exists|i: int|
                0 <= i < self.entries().len() && loose_match(
                    #[trigger] self.entries()[i].0,
                    normalized_name(name@),
                ) && self.entries()[i].1 == v@),
    {
        proof {
            use_type_invariant(self);
        }
        let n = normalize_name(name);
        let ghost es = self.entries();
        let mut i: usize = 0;
        while i < self.assets.len()
            invariant
                i <= self.assets.len(),
                es == self.entries(),
                n@ == normalized_name(name@),
                distinct_paths(es),
                forall|k: int| 0 <= k < i ==> #[trigger] es[k].0 != n@,
            decreases self.assets.len() - i,
        {
            let key = chars_of(self.assets[i].0.as_str());
            if same_text(&key, &n) {
                assert(es[i as int].0 == n@);
                proof {
                    let j = choose|j: int| 0 <= j < es.len() && #[trigger] es[j].0 == n@;
                    assert(j == i);
                    assert(es[i as int].1 == self.assets@[i as int].1@);
                }
                return Some(&self.assets[i].1);
            }
            i += 1;
        }
        assert(exact_asset(es, n@) is None);
        let target = match path_file_name(&n) {
            Some(f) => f,
            None => sub_vec(&n, 0, n.len()),
        };
        let mut i: usize = 0;
        while i < self.assets.len()
            invariant
                i <= self.assets.len(),
                es == self.entries(),
                n@ == normalized_name(name@),
                exact_asset(es, n@) is None,
                target@ == (match file_name(n@) {
                    Some(f) => f,
                    None => n@,
                }),
                forall|k: int| 0 <= k < i ==> !loose_match(#[trigger] es[k].0, n@),
            decreases self.assets.len() - i,
        {
            let key = chars_of(self.assets[i].0.as_str());
            assert(key@ == es[i as int].0);
            let mut hit = eq_ignore_ascii_case(&key, &n);
            if !hit {
                match path_file_name(&key) {
                    Some(kf) => {
                        hit = eq_ignore_ascii_case(&kf, &target);
                    },
                    None => {},
                }
            }
            if hit {
                assert(loose_match(es[i as int].0, n@));
                assert(es[i as int].1 == self.assets@[i as int].1@);
                return Some(&self.assets[i].1);
            }
            i += 1;
        }
        None
    }

    /// Stores `data` under `name`, replacing what was stored under it.
    pub fn insert(&mut self, name: String, data: Vec<u8>)
        ensures
            exact_asset(final(self).entries(), name@) == Some(data@),
            forall|p: Seq<char>|
                p != name@ ==> #[trigger] exact_asset(final(self).entries(), p) == exact_asset(
                    old(self).entries(),
                    p,
                ),
    {
        proof {
            use_type_invariant(&*self);
        }
        let ghost es = self.entries();
        let key = chars_of(name.as_str());
        let mut i: usize = 0;
        let mut found = false;
        while i < self.assets.len() && !found
            invariant
                i <= self.assets.len(),
                es == asset_entries(self.assets@),
                distinct_paths(es),
                key@ == name@,
                found ==> i < self.assets.len() && es[i as int].0 == key@,
                forall|k: int| 0 <= k < i ==> #[trigger] es[k].0 != key@,
            decreases self.assets.len() - i, (if found { 0int } else { 1int }),
        {
            if same_text(&chars_of(self.assets[i].0.as_str()), &key) {
                found = true;
            } else {
                i += 1;
            }
        }
        let ghost entry = (name@, data@);
        if found {
            assert(es[i as int].0 == name@);
            let mut assets: Vec<(String, Vec<u8>)> = Vec::new();
            std::mem::swap(&mut assets, &mut self.assets);
            assets.set(i, (name, data));
            proof {
                let ns = asset_entries(assets@);
                assert(ns =~= es.update(i as int, entry));
                assert forall|a: int, b: int| 0 <= a < b < ns.len() implies ns[a].0 != ns[b].0 by {
                    if a != i && b != i {
                        assert(ns[a] == es[a] && ns[b] == es[b]);
                    } else if a == i {
                        assert(ns[b] == es[b]);
                    } else {
                        assert(ns[a] == es[a]);
                    }
                }
                assert(exists|j: int| 0 <= j < ns.len() && #[trigger] ns[j].0 == name@) by {
                    assert(ns[i as int].0 == name@);
                }
                let j = choose|j: int| 0 <= j < ns.len() && #[trigger] ns[j].0 == name@;
                assert(j == i);
                assert forall|p: Seq<char>| p != name@ implies #[trigger] exact_asset(ns, p)
                    == exact_asset(es, p) by {
                    if exists|j: int| 0 <= j < es.len() && #[trigger] es[j].0 == p {
                        let j = choose|j: int| 0 <= j < es.len() && #[trigger] es[j].0 == p;
                        assert(ns[j] == es[j]);
                        let j2 = choose|j2: int| 0 <= j2 < ns.len() && #[trigger] ns[j2].0 == p;
                        assert(ns[j2] == es[j2]);
                    } else {
                        if exists|j: int| 0 <= j < ns.len() && #[trigger] ns[j].0 == p {
                            let j = choose|j: int| 0 <= j < ns.len() && #[trigger] ns[j].0 == p;
                            assert(ns[j] == es[j]);
                        }
                    }
                }
            }
            self.assets = assets;
        } else {
            let mut assets: Vec<(String, Vec<u8>)> = Vec::new();
            std::mem::swap(&mut assets, &mut self.assets);
            assets.push((name, data));
            proof {
                let ns = asset_entries(assets@);
                assert(ns =~= es.push(entry));
                assert forall|a: int, b: int| 0 <= a < b < ns.len() implies ns[a].0 != ns[b].0 by {
                    if b == es.len() {
                        assert(ns[a] == es[a]);
                    } else {
                        assert(ns[a] == es[a] && ns[b] == es[b]);
                    }
                }
                assert(ns[es.len() as int].0 == name@);
                let j = choose|j: int| 0 <= j < ns.len() && #[trigger] ns[j].0 == name@;
                assert(j == es.len());
                assert forall|p: Seq<char>| p != name@ implies #[trigger] exact_asset(ns, p)
                    == exact_asset(es, p) by {
                    if exists|j: int| 0 <= j < es.len() && #[trigger] es[j].0 == p {
                        let j = choose|j: int| 0 <= j < es.len() && #[trigger] es[j].0 == p;
                        assert(ns[j] == es[j]);
                        let j2 = choose|j2: int| 0 <= j2 < ns.len() && #[trigger] ns[j2].0 == p;
                        assert(ns[j2] == es[j2]);
                    } else {
                        if exists|j: int| 0 <= j < ns.len() && #[trigger] ns[j].0 == p {
                            let j = choose|j: int| 0 <= j < ns.len() && #[trigger] ns[j].0 == p;
                            assert(ns[j] == es[j]);
                        }
                    }
                }
            }
            self.assets = assets;
        }
    }

    /// A copy of every stored path with its contents.
    pub fn clone_map(&self) -> (r: Vec<(String, Vec<u8>)>)
        ensures
            asset_entries(r@) == self.entries(),
    {
        let mut out: Vec<(String, Vec<u8>)> = Vec::new();
        let mut i: usize = 0;
        while i < self.assets.len()
            invariant
                i <= self.assets.len(),
                out.len() == i,
                forall|k: int|
                    0 <= k < i ==> #[trigger] asset_entries(out@)[k] == asset_entries(
                        self.assets@,
                    )[k],
            decreases self.assets.len() - i,
        {
            let name = self.assets[i].0.clone();
            let data = copy_bytes(&self.assets[i].1);
            let ghost prev = out@;
            out.push((name, data));
            proof {
                assert forall|k: int| 0 <= k <= i implies #[trigger] asset_entries(out@)[k]
                    == asset_entries(self.assets@)[k] by {
                    if k < i {
                        assert(out@[k] == prev[k]);
                        assert(asset_entries(prev)[k] == asset_entries(self.assets@)[k]);
                    }
                }
            }
            i += 1;
        }
        assert(asset_entries(out@) =~= asset_entries(self.assets@));
        out
    }
}

fn copy_bytes(v: &Vec<u8>) -> (r: Vec<u8>)
    ensures
        r@ == v@,
{
    let mut r: Vec<u8> = Vec::new();
    let mut i: usize = 0;
    while i < v.len()
        invariant
            i <= v.len(),
            r@ == v@.take(i as int),
        decreases v.len() - i,
    {
        r.push(v[i]);
        i += 1;
        assert(r@ =~= v@.take(i as int));
    }
    assert(v@.take(i as int) =~= v@);
    r
}

impl Clone for AssetsFolder {
    /// A copy of every stored path with its contents.
    fn clone(&self) -> (r: Self)
        ensures
            r.entries() == self.entries(),
    {
        proof {
            use_type_invariant(self);
        }
        let copied = self.clone_map();
        AssetsFolder { assets: copied }
    }
}

} // verus!
