//! The text form of a logical volume request, `name:size[:fs[:mount]]`.

use vstd::prelude::*;
use crate::text::{
    alnum, alnum_model, all_ascii, all_digits, ascii_lower, concat3, decimal, is_ascii_alnum, is_ascii_char, is_digit,
    lemma_decimal, lemma_split_nonempty, split_on, split_text, views,
};
use crate::types::{Filesystem, FsMount, FsMountView, LvRequest, LvRequestView, SizeUnit};
use crate::units::{
    fs_name, fs_parse_text, lemma_fs_text_roundtrip, lemma_size_text_roundtrip, size_parse_text,
    size_text,
};

verus! {

/// A character allowed in a logical volume name.
pub open spec fn lv_name_char(c: char) -> bool {
    alnum_model(c) || c == '_' || c == '-' || c == '.'
}

/// A logical volume name: not empty, not starting with `-`, and made of
/// alphanumeric characters, `_`, `-` and `.`.
pub open spec fn valid_lv_name(n: Seq<char>) -> bool {
    &&& n.len() > 0
    &&& n[0] != '-'
    &&& forall|i: int| 0 <= i < n.len() ==> lv_name_char(#[trigger] n[i])
}

pub open spec fn part_or_empty(parts: Seq<Seq<char>>, i: int) -> Seq<char> {
    if i < parts.len() {
        parts[i]
    } else {
        Seq::<char>::empty()
    }
}

pub open spec fn lv_result_view(r: Result<LvRequest, String>) -> Result<LvRequestView, Seq<char>> {
    match r {
        Ok(v) => Ok(v@),
        Err(e) => Err(e@),
    }
}

/// A request after its name, its structure and its size have been
/// accepted: the filesystem and mount parts.
pub open spec fn lv_with_fs(
    name: Seq<char>,
    size: SizeUnit,
    fs_part: Seq<char>,
    mount_part: Seq<char>,
) -> Result<LvRequestView, Seq<char>> {
    if fs_part.len() > 0 {
        match fs_parse_text(fs_part) {
            Err(e) => Err(e),
            Ok(f) => Ok(
                LvRequestView {
                    name,
                    size,
                    fs: Some(
                        FsMountView {
                            fs: f,
                            mount_path: if mount_part.len() > 0 {
                                Some(mount_part)
                            } else {
                                None
                            },
                        },
                    ),
                },
            ),
        }
    } else {
        Ok(LvRequestView { name, size, fs: None })
    }
}

/// The request that a text `name:size[:fs[:mount]]` denotes, or the error
/// it is refused with.
pub open spec fn lv_parse_text(s: Seq<char>) -> Result<LvRequestView, Seq<char>> {
    let parts = split_on(s, ':');
    if parts.len() < 2 {
        Err("Invalid format '"@ + s + "'. Min: name:size"@)
    } else if parts.len() > 4 {
        Err("Invalid format '"@ + s + "'. Max: name:size:fs:mount"@)
    } else if !valid_lv_name(parts[0]) {
        Err("Invalid LV name: '"@ + parts[0] + "'"@)
    } else {
        let fs_part = part_or_empty(parts, 2);
        let mount_part = part_or_empty(parts, 3);
        if fs_part.len() == 0 && mount_part.len() > 0 {
            Err("Provided a mountpath '"@ + mount_part + "' but no filesystem."@)
        } else {
            match size_parse_text(parts[1]) {
                Err(e) => Err(e),
                Ok(size) => lv_with_fs(parts[0], size, fs_part, mount_part),
            }
        }
    }
}

/// The text form of a request.
pub open spec fn lv_text(r: LvRequestView) -> Seq<char> {
    let head = r.name + ":"@ + size_text(r.size);
    match r.fs {
        None => head,
        Some(m) => match m.mount_path {
            None => head + ":"@ + fs_name(m.fs),
            Some(p) => head + ":"@ + fs_name(m.fs) + ":"@ + p,
        },
    }
}

fn valid_name(n: &str) -> (r: bool)
    ensures
        r == valid_lv_name(n@),
{
    let len = n.unicode_len();
    if len == 0 {
        return false;
    }
    if n.get_char(0) == '-' {
        return false;
    }
    let mut i: usize = 0;
    while i < len
        invariant
            len == n@.len(),
            i <= len,
            forall|j: int| 0 <= j < i ==> lv_name_char(#[trigger] n@[j]),
        decreases len - i,
    {
        let c = n.get_char(i);
        if !(alnum(c) || c == '_' || c == '-' || c == '.') {
            return false;
        }
        i = i + 1;
    }
    true
}

impl LvRequest {
    /// Parses `name:size[:fs[:mount]]`.
    pub fn parse(s: &str) -> (r: Result<LvRequest, String>)
        ensures
            lv_result_view(r) == lv_parse_text(s@),
    {
        let parts = split_text(s, ':');
        let ghost ps = split_on(s@, ':');
        assert(views(parts@) == ps);
        assert(forall|i: int| 0 <= i < parts.len() ==> parts@[i]@ == #[trigger] ps[i]);
        if parts.len() < 2 {
            return Err(concat3("Invalid format '", s, "'. Min: name:size"));
        }
        if parts.len() > 4 {
            return Err(concat3("Invalid format '", s, "'. Max: name:size:fs:mount"));
        }
        let name = parts[0].clone();
        if !valid_name(name.as_str()) {
            return Err(concat3("Invalid LV name: '", name.as_str(), "'"));
        }
        proof {
            reveal_strlit("");
        }
        let fs_part: &str = if parts.len() > 2 {
            parts[2].as_str()
        } else {
            ""
        };
        let mount_part: &str = if parts.len() > 3 {
            parts[3].as_str()
        } else {
            ""
        };
        assert(fs_part@ == part_or_empty(ps, 2));
        assert(mount_part@ == part_or_empty(ps, 3));
        if fs_part.unicode_len() == 0 && mount_part.unicode_len() != 0 {
            return Err(concat3("Provided a mountpath '", mount_part, "' but no filesystem."));
        }
        let size = match SizeUnit::parse(parts[1].as_str()) {
            Ok(u) => u,
            Err(e) => {
                return Err(e);
            },
        };
        let fs = if fs_part.unicode_len() != 0 {
            let fs_type = match Filesystem::parse(fs_part) {
                Ok(f) => f,
                Err(e) => {
                    return Err(e);
                },
            };
            let mount_path = if mount_part.unicode_len() != 0 {
                Some(String::from_str(mount_part))
            } else {
                None
            };
            Some(FsMount { fs: fs_type, mount_path })
        } else {
            None
        };
        Ok(LvRequest { name, size, fs })
    }

    /// The text form of the request, which `parse` reads back.
    pub fn to_string(&self) -> (r: String)
        ensures
            r@ == lv_text(self@),
    {
        let size = self.size.to_string();
        let mut r = concat3(self.name.as_str(), ":", size.as_str());
        match &self.fs {
            None => {},
            Some(m) => {
                let f = m.fs.to_string();
                r.append(":");
                r.append(f.as_str());
                match &m.mount_path {
                    None => {},
                    Some(p) => {
                        r.append(":");
                        r.append(p.as_str());
                    },
                }
            },
        }
        r
    }
}

proof fn lemma_split_single(x: Seq<char>, sep: char)
    requires
        forall|i: int| 0 <= i < x.len() ==> x[i] != sep,
    ensures
        split_on(x, sep) == seq![x],
    decreases x.len(),
{
    if x.len() > 0 {
        lemma_split_single(x.drop_last(), sep);
        assert(x.drop_last().push(x.last()) =~= x);
    } else {
        assert(x =~= Seq::<char>::empty());
    }
}

proof fn lemma_split_join(a: Seq<char>, b: Seq<char>, sep: char)
    ensures
        split_on(a + seq![sep] + b, sep) == split_on(a, sep) + split_on(b, sep),
    decreases b.len(),
{
    let s = a + seq![sep] + b;
    if b.len() == 0 {
        assert(s.drop_last() =~= a);
        assert(split_on(b, sep) =~= seq![Seq::<char>::empty()]);
        assert(split_on(s, sep) =~= split_on(a, sep) + split_on(b, sep));
    } else {
        lemma_split_join(a, b.drop_last(), sep);
        assert(s.drop_last() =~= a + seq![sep] + b.drop_last());
        lemma_split_nonempty(b.drop_last(), sep);
        lemma_split_nonempty(a, sep);
        assert(split_on(s, sep) =~= split_on(a, sep) + split_on(b, sep));
    }
}

proof fn lemma_size_text_no_colon(u: SizeUnit)
    ensures
        forall|i: int| 0 <= i < size_text(u).len() ==> size_text(u)[i] != ':',
{
    reveal_strlit("B");
    reveal_strlit("K");
    reveal_strlit("M");
    reveal_strlit("G");
    reveal_strlit("T");
    reveal_strlit("P");
    reveal_strlit("E");
    reveal_strlit("s");
    reveal_strlit("%");
    reveal_strlit("FREE");
    reveal_strlit("VG");
    reveal_strlit("PVS");
    let t = size_text(u);
    assert forall|i: int| 0 <= i < t.len() implies t[i] != ':' by {
        let d: Seq<char> = match u {
            SizeUnit::Bytes(n) => decimal(n as nat),
            SizeUnit::Kilobytes(n) => decimal(n as nat),
            SizeUnit::Megabytes(n) => decimal(n as nat),
            SizeUnit::Gigabytes(n) => decimal(n as nat),
            SizeUnit::Terabytes(n) => decimal(n as nat),
            SizeUnit::Petabytes(n) => decimal(n as nat),
            SizeUnit::Exabytes(n) => decimal(n as nat),
            SizeUnit::Sectors(n) => decimal(n as nat),
            SizeUnit::Extents(n) => decimal(n as nat),
            SizeUnit::Percentage(p, _) => decimal(p.value() as nat),
        };
        lemma_decimal_digits(d, u);
        if i < d.len() {
            assert(t[i] == d[i]);
            assert(is_digit(d[i]));
        }
    }
}

proof fn lemma_decimal_digits(d: Seq<char>, u: SizeUnit)
    requires
        d == match u {
            SizeUnit::Bytes(n) => decimal(n as nat),
            SizeUnit::Kilobytes(n) => decimal(n as nat),
            SizeUnit::Megabytes(n) => decimal(n as nat),
            SizeUnit::Gigabytes(n) => decimal(n as nat),
            SizeUnit::Terabytes(n) => decimal(n as nat),
            SizeUnit::Petabytes(n) => decimal(n as nat),
            SizeUnit::Exabytes(n) => decimal(n as nat),
            SizeUnit::Sectors(n) => decimal(n as nat),
            SizeUnit::Extents(n) => decimal(n as nat),
            SizeUnit::Percentage(p, _) => decimal(p.value() as nat),
        },
    ensures
        all_digits(d),
        size_text(u).len() >= d.len(),
        forall|i: int| 0 <= i < d.len() ==> size_text(u)[i] == d[i],
{
    match u {
        SizeUnit::Bytes(n) => lemma_decimal(n as nat),
        SizeUnit::Kilobytes(n) => lemma_decimal(n as nat),
        SizeUnit::Megabytes(n) => lemma_decimal(n as nat),
        SizeUnit::Gigabytes(n) => lemma_decimal(n as nat),
        SizeUnit::Terabytes(n) => lemma_decimal(n as nat),
        SizeUnit::Petabytes(n) => lemma_decimal(n as nat),
        SizeUnit::Exabytes(n) => lemma_decimal(n as nat),
        SizeUnit::Sectors(n) => lemma_decimal(n as nat),
        SizeUnit::Extents(n) => lemma_decimal(n as nat),
        SizeUnit::Percentage(p, _) => lemma_decimal(p.value() as nat),
    }
}

/// A request whose text form reads back: its name is valid, its size well
/// formed, and its mount path, when there is one, neither empty nor holding
/// a `:`.
pub open spec fn lv_text_invertible(r: LvRequestView) -> bool {
    &&& valid_lv_name(r.name)
    &&& r.size.wf()
    &&& match r.fs {
        Some(m) => match m.mount_path {
            Some(p) => p.len() > 0 && forall|i: int| 0 <= i < p.len() ==> p[i] != ':',
            None => true,
        },
        None => true,
    }
}

/// Rendering a request as text and parsing the text gives the request
/// back.
pub proof fn lemma_lv_text_roundtrip(r: LvRequestView)
    requires
        lv_text_invertible(r),
    ensures
        lv_parse_text(lv_text(r)) == Ok::<LvRequestView, Seq<char>>(r),
{
    reveal_strlit(":");
    reveal_strlit("xfs");
    reveal_strlit("ext4");
    reveal_strlit("btrfs");
    reveal_strlit("vfat");
    reveal_strlit("swap");
    reveal_strlit("f2fs");
    reveal_strlit("ntfs");
    reveal_strlit("exfat");
    assert(":"@ =~= seq![':']);
    let name = r.name;
    assert forall|i: int| 0 <= i < name.len() implies name[i] != ':' by {
        assert(lv_name_char(name[i]));
        assert(is_ascii_char(':'));
        assert(!is_ascii_alnum(':'));
    }
    lemma_size_text_no_colon(r.size);
    lemma_size_text_roundtrip(r.size);
    let st = size_text(r.size);
    lemma_split_single(name, ':');
    lemma_split_single(st, ':');
    lemma_split_join(name, st, ':');
    let head = name + ":"@ + st;
    assert(split_on(head, ':') =~= seq![name, st]);
    match r.fs {
        None => {
            assert(lv_parse_text(lv_text(r)) == Ok::<LvRequestView, Seq<char>>(r));
        },
        Some(m) => {
            let fsn = fs_name(m.fs);
            lemma_fs_text_roundtrip(m.fs);
            assert(forall|i: int| 0 <= i < fsn.len() ==> fsn[i] != ':');
            lemma_split_single(fsn, ':');
            lemma_split_join(head, fsn, ':');
            let h2 = head + ":"@ + fsn;
            assert(split_on(h2, ':') =~= seq![name, st, fsn]);
            assert(fsn.len() > 0);
            match m.mount_path {
                None => {
                    assert(part_or_empty(seq![name, st, fsn], 3) =~= Seq::<char>::empty());
                    assert(lv_parse_text(lv_text(r)) == Ok::<LvRequestView, Seq<char>>(r));
                },
                Some(p) => {
                    lemma_split_single(p, ':');
                    lemma_split_join(h2, p, ':');
                    assert(split_on(h2 + ":"@ + p, ':') =~= seq![name, st, fsn, p]);
                    assert(lv_parse_text(lv_text(r)) == Ok::<LvRequestView, Seq<char>>(r));
                },
            }
        },
    }
}

/// Which logical volume names are accepted: a name made of ASCII letters,
/// digits, `_`, `-` and `.` that is not empty and does not start with `-`
/// is valid; an empty name, one that starts with `-`, and one holding a
/// `:`, a `/` or ASCII white space are not.
pub proof fn lemma_lv_names(n: Seq<char>)
    ensures
        (n.len() > 0 && n[0] != '-' && forall|i: int|
            0 <= i < n.len() ==> ('a' <= #[trigger] n[i] <= 'z' || 'A' <= n[i] <= 'Z' || '0' <= n[i] <= '9' || n[i]
                == '_' || n[i] == '-' || n[i] == '.')) ==> valid_lv_name(n),
        valid_lv_name(n) ==> n.len() > 0 && n[0] != '-' && forall|i: int|
            0 <= i < n.len() ==> #[trigger] n[i] != ':' && n[i] != '/' && !(crate::text::is_white(n[i]) && is_ascii_char(n[i])),
{
    assert forall|i: int| 0 <= i < n.len() && valid_lv_name(n) implies #[trigger] n[i] != ':' && n[i] != '/'
        && !(crate::text::is_white(n[i]) && is_ascii_char(n[i])) by {
        assert(lv_name_char(n[i]));
    }
}

/// No `:` in the text.
pub open spec fn no_colon(t: Seq<char>) -> bool {
    forall|i: int| 0 <= i < t.len() ==> t[i] != ':'
}

/// A request written `name:size`, `name:size:`, `name:size:fs` or
/// `name:size:fs:path` reads as the request with that name and size, and
/// with no filesystem, no filesystem, the filesystem unmounted, or the
/// filesystem mounted at `path`.
pub proof fn lemma_lv_request_forms(
    name: Seq<char>,
    sz: Seq<char>,
    fs: Seq<char>,
    path: Seq<char>,
    u: SizeUnit,
    f: Filesystem,
)
    requires
        valid_lv_name(name),
        no_colon(sz),
        size_parse_text(sz) == Ok::<SizeUnit, Seq<char>>(u),
        no_colon(fs),
        fs_parse_text(fs) == Ok::<Filesystem, Seq<char>>(f),
        no_colon(path),
        path.len() > 0,
    ensures
        lv_parse_text(name + ":"@ + sz) == Ok::<LvRequestView, Seq<char>>(LvRequestView { name, size: u, fs: None }),
        lv_parse_text(name + ":"@ + sz + ":"@) == Ok::<LvRequestView, Seq<char>>(LvRequestView { name, size: u, fs: None }),
        lv_parse_text(name + ":"@ + sz + ":"@ + fs) == Ok::<LvRequestView, Seq<char>>(
            LvRequestView { name, size: u, fs: Some(FsMountView { fs: f, mount_path: None }) },
        ),
        lv_parse_text(name + ":"@ + sz + ":"@ + fs + ":"@ + path) == Ok::<LvRequestView, Seq<char>>(
            LvRequestView { name, size: u, fs: Some(FsMountView { fs: f, mount_path: Some(path) }) },
        ),
{
    reveal_strlit(":");
    assert(":"@ =~= seq![':']);
    assert forall|i: int| 0 <= i < name.len() implies name[i] != ':' by {
        assert(lv_name_char(name[i]));
        assert(is_ascii_char(':'));
        assert(!is_ascii_alnum(':'));
    }
    if fs.len() == 0 {
        reveal_strlit("xfs");
        reveal_strlit("ext4");
        reveal_strlit("btrfs");
        reveal_strlit("vfat");
        reveal_strlit("swap");
        reveal_strlit("f2fs");
        reveal_strlit("ntfs");
        reveal_strlit("exfat");
        assert(all_ascii(fs));
        assert(ascii_lower(fs) =~= fs);
    }
    assert(fs.len() > 0);
    let e = Seq::<char>::empty();
    lemma_split_single(name, ':');
    lemma_split_single(sz, ':');
    lemma_split_single(fs, ':');
    lemma_split_single(path, ':');
    lemma_split_single(e, ':');
    lemma_split_join(name, sz, ':');
    let h = name + ":"@ + sz;
    assert(split_on(h, ':') =~= seq![name, sz]);
    lemma_split_join(h, e, ':');
    assert(h + ":"@ + e =~= h + ":"@);
    assert(split_on(h + ":"@, ':') =~= seq![name, sz, e]);
    lemma_split_join(h, fs, ':');
    let h2 = h + ":"@ + fs;
    assert(split_on(h2, ':') =~= seq![name, sz, fs]);
    lemma_split_join(h2, path, ':');
    assert(split_on(h2 + ":"@ + path, ':') =~= seq![name, sz, fs, path]);
    assert(part_or_empty(seq![name, sz], 2) =~= e);
    assert(part_or_empty(seq![name, sz, e], 3) =~= e);
    assert(part_or_empty(seq![name, sz, fs], 3) =~= e);
}

impl std::str::FromStr for LvRequest {
    type Err = String;

    fn from_str(s: &str) -> (r: Result<Self, Self::Err>)
        ensures
            lv_result_view(r) == lv_parse_text(s@),
    {
        LvRequest::parse(s)
    }
}

} // verus!
