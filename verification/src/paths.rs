use vstd::prelude::*;
use vstd::utf8::{encode_utf8, is_ascii_chars, is_ascii_chars_encode_utf8};

verus! {

/// The path `base` with the relative path `part` below it: a separator goes
/// between them unless `base` is empty or ends in one.
pub open spec fn joined(base: Seq<u8>, part: Seq<u8>) -> Seq<u8> {
    if base.len() == 0 || base.last() == 47 {
        base + part
    } else {
        base.push(47) + part
    }
}

/// The database below the user's data directory, which is `data_home`, or
/// `.local/share` in the home directory.
pub open spec fn database_path(data_home: Option<Seq<u8>>, home: Option<Seq<u8>>) -> Seq<u8> {
    let base = match data_home {
        Some(dir) => dir,
        None => joined(
            match home {
                Some(dir) => dir,
                None => Seq::empty(),
            },
            encode_utf8(".local/share"@),
        ),
    };
    joined(joined(base, encode_utf8("clipper"@)), encode_utf8("clips.redb"@))
}

/// The socket on which the running instance listens: `clipper.sock` in the
/// runtime directory, or a file of the user in `/tmp`.
pub open spec fn instance_socket(runtime_dir: Option<Seq<u8>>, user: Option<Seq<u8>>) -> Seq<u8> {
    match runtime_dir {
        Some(dir) => joined(dir, encode_utf8("clipper.sock"@)),
        None => encode_utf8("/tmp/clipper-"@) + match user {
            Some(name) => name,
            None => encode_utf8("default"@),
        } + encode_utf8(".sock"@),
    }
}

/// The bytes of an environment variable that may not be set.
pub open spec fn variable(value: Option<Vec<u8>>) -> Option<Seq<u8>> {
    match value {
        Some(bytes) => Some(bytes@),
        None => None,
    }
}

fn append(path: &mut Vec<u8>, text: &str)
    ensures
        final(path)@ == old(path)@ + encode_utf8(text@),
{
    path.extend_from_slice(text.as_bytes());
    assert(path@ =~= old(path)@ + encode_utf8(text@));
}

fn join(path: &mut Vec<u8>, part: &str)
    ensures
        final(path)@ == joined(old(path)@, encode_utf8(part@)),
{
    let n: usize = path.len();
    if n > 0 && path[n - 1] != 47 {
        path.push(47);
    }
    append(path, part);
}

/// Where the database is, for the values of `XDG_DATA_HOME` and `HOME`.
pub fn default_db_path(data_home: Option<Vec<u8>>, home: Option<Vec<u8>>) -> (r: Vec<u8>)
    ensures
        r@ == database_path(variable(data_home), variable(home)),
{
    let mut path: Vec<u8> = match data_home {
        Some(dir) => dir,
        None => {
            let mut dir: Vec<u8> = match home {
                Some(dir) => dir,
                None => Vec::new(),
            };
            join(&mut dir, ".local/share");
            dir
        },
    };
    join(&mut path, "clipper");
    join(&mut path, "clips.redb");
    path
}

/// Where the running instance listens, for the values of `XDG_RUNTIME_DIR` and
/// `USER`.
pub fn socket_path(runtime_dir: Option<Vec<u8>>, user: Option<Vec<u8>>) -> (r: Vec<u8>)
    ensures
        r@ == instance_socket(variable(runtime_dir), variable(user)),
{
    match runtime_dir {
        Some(dir) => {
            let mut path: Vec<u8> = dir;
            join(&mut path, "clipper.sock");
            path
        },
        None => {
            let mut path: Vec<u8> = Vec::new();
            append(&mut path, "/tmp/clipper-");
            match user {
                Some(name) => {
                    path.extend_from_slice(name.as_slice());
                    assert(path@ =~= encode_utf8("/tmp/clipper-"@) + name@);
                },
                None => append(&mut path, "default"),
            }
            append(&mut path, ".sock");
            assert(path@ =~= instance_socket(None, variable(user)));
            path
        },
    }
}

proof fn lemma_names()
    ensures
        encode_utf8("clipper"@).len() == 7,
        encode_utf8("clipper"@)[6] == 114,
        encode_utf8(".local/share"@).len() == 12,
        encode_utf8(".local/share"@)[11] == 101,
{
    reveal_strlit("clipper");
    reveal_strlit(".local/share");
    assert(is_ascii_chars("clipper"@));
    assert(is_ascii_chars(".local/share"@));
    is_ascii_chars_encode_utf8("clipper"@);
    is_ascii_chars_encode_utf8(".local/share"@);
}

/// `dir` as the start of a path: with a separator behind it unless it is empty
/// or has one.
pub open spec fn opened(dir: Seq<u8>) -> Seq<u8> {
    if dir.len() > 0 && dir[dir.len() - 1] != 47 {
        dir + seq![47u8]
    } else {
        dir
    }
}

/// The database is `clipper/clips.redb` in the data directory where one is set,
/// whatever the home directory is.
pub proof fn the_database_is_below_the_data_directory(dir: Seq<u8>, home: Option<Seq<u8>>)
    ensures
        database_path(Some(dir), home) == opened(dir) + encode_utf8("clipper"@) + seq![47u8]
            + encode_utf8("clips.redb"@),
{
    lemma_names();
    let inner = joined(dir, encode_utf8("clipper"@));
    assert(inner =~= opened(dir) + encode_utf8("clipper"@));
    assert(inner.last() == encode_utf8("clipper"@)[6]);
    assert(inner.push(47) =~= inner + seq![47u8]);
}

/// Without a data directory the database is in `.local/share` of the home
/// directory, or of the current one where that is not set either.
pub proof fn the_database_is_below_the_home_directory(home: Option<Seq<u8>>)
    ensures
        ({
            let start = match home {
                Some(dir) => opened(dir),
                None => Seq::empty(),
            };
            database_path(None, home) == start + encode_utf8(".local/share"@) + seq![47u8]
                + encode_utf8("clipper"@) + seq![47u8] + encode_utf8("clips.redb"@)
        }),
{
    lemma_names();
    let start = match home {
        Some(dir) => opened(dir),
        None => Seq::empty(),
    };
    let share = start + encode_utf8(".local/share"@);
    match home {
        Some(dir) => {
            assert(joined(dir, encode_utf8(".local/share"@)) =~= share);
        },
        None => {
            assert(joined(Seq::empty(), encode_utf8(".local/share"@)) =~= share);
        },
    }
    assert(share.last() == encode_utf8(".local/share"@)[11]);
    the_database_is_below_the_data_directory(share, home);
    assert(opened(share) == share + seq![47u8]);
}

/// The socket is `clipper.sock` in the runtime directory where one is set, and
/// else a file in `/tmp` that is named after the user.
pub proof fn every_user_has_a_socket(dir: Seq<u8>, user: Option<Seq<u8>>, name: Seq<u8>)
    ensures
        instance_socket(Some(dir), user) == opened(dir) + encode_utf8("clipper.sock"@),
        instance_socket(None, Some(name)) == encode_utf8("/tmp/clipper-"@) + name + encode_utf8(
            ".sock"@,
        ),
        instance_socket(None, None) == encode_utf8("/tmp/clipper-"@) + encode_utf8("default"@)
            + encode_utf8(".sock"@),
{
    assert(joined(dir, encode_utf8("clipper.sock"@)) =~= opened(dir) + encode_utf8(
        "clipper.sock"@,
    ));
}

/// A variable that is set has its bytes.
pub proof fn a_variable_has_its_bytes(value: Option<Vec<u8>>)
    ensures
        value is Some <==> variable(value) is Some,
        value is Some ==> variable(value)->0 == value->0@,
{
}

} // verus!
