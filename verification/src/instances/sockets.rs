//! The names of instances and of the sockets that they listen on.

use vstd::prelude::*;
use vstd::string::{StrSliceExecFns, StringExecFns};
use vstd::utf8::encode_utf8;

use crate::instances::InstanceId;

verus! {

// ---------------------------------------------------------------------------
// Instance names
// ---------------------------------------------------------------------------

/// The hexadecimal digit `d`.
pub open spec fn hex_digit(d: int) -> char {
    "0123456789abcdef"@[d]
}

/// The last `width` hexadecimal digits of `n`.
pub open spec fn hex(n: nat, width: nat) -> Seq<char>
    decreases width,
{
    if width == 0 {
        seq![]
    } else {
        hex(n / 16, (width - 1) as nat).push(hex_digit((n % 16) as int))
    }
}

/// The last `width` hexadecimal digits of `n`.
fn to_hex(n: u64, width: usize) -> (text: String)
    ensures
        text@ == hex(n as nat, width as nat),
    decreases width,
{
    if width == 0 {
        return String::new();
    }
    let mut text: String = to_hex(n / 16, width - 1);
    let digit: usize = (n % 16) as usize;
    proof {
        reveal_strlit("0123456789abcdef");
    }
    let ghost high = text@;
    text.append("0123456789abcdef".substring_char(digit, digit + 1));
    assert(text@ == high.push(hex_digit(digit as int)));
    text
}

/// The name of the instance that runs as process `pid` and drew `random`.
pub open spec fn instance_id_text(pid: u32, random: u64) -> Seq<char> {
    hex(pid as nat, 8) + seq!['-'] + hex(random as nat, 16)
}

/// The name of the instance that runs as process `pid` and drew `random`.
pub fn instance_id_from(pid: u32, random: u64) -> (id: InstanceId)
    ensures
        id@ == instance_id_text(pid, random),
{
    let mut id: String = to_hex(pid as u64, 8);
    proof {
        reveal_strlit("-");
    }
    let ghost process = id@;
    id.append("-");
    assert(id@ == process + seq!['-']);
    id.append(to_hex(random, 16).as_str());
    id
}

/// `rand::random` for a `u64`. Any number may come back.
#[verifier::external_body]
fn random_u64() -> (random: u64) {
    rand::random()
}

/// A new name for the instance that runs as process `pid`.
pub fn generate_instance_id(pid: u32) -> (id: InstanceId)
    ensures
        exists|random: u64| id@ == #[trigger] instance_id_text(pid, random),
{
    let random: u64 = random_u64();
    instance_id_from(pid, random)
}

// ---------------------------------------------------------------------------
// Socket paths
// ---------------------------------------------------------------------------

/// The path of `name` in directory `dir`. A `name` that is itself a path from
/// the root stands alone.
pub open spec fn joined(dir: Seq<char>, name: Seq<char>) -> Seq<char> {
    if name.len() > 0 && name[0] == '/' {
        name
    } else if dir.len() == 0 || dir.last() == '/' {
        dir + name
    } else {
        dir + seq!['/'] + name
    }
}

/// The path of `name` in directory `dir`.
pub fn join_path(dir: &str, name: &str) -> (path: String)
    ensures
        path@ == joined(dir@, name@),
{
    if name.unicode_len() > 0 && name.get_char(0) == '/' {
        return name.to_owned();
    }
    let mut path: String = dir.to_owned();
    let n: usize = dir.unicode_len();
    if n > 0 && dir.get_char(n - 1) != '/' {
        proof {
            reveal_strlit("/");
        }
        path.append("/");
        assert(path@ == dir@ + seq!['/']);
    }
    path.append(name);
    path
}

/// The file name of an instance's socket.
pub open spec fn socket_name(instance_id: Seq<char>) -> Seq<char> {
    instance_id + ".sock"@
}

/// The path of an instance's socket in `dir`.
pub open spec fn socket_path_in(dir: Seq<char>, instance_id: Seq<char>) -> Seq<char> {
    joined(dir, socket_name(instance_id))
}

/// The path of an instance's socket in `dir`.
pub fn make_socket_path(dir: &str, instance_id: &InstanceId) -> (path: String)
    ensures
        path@ == socket_path_in(dir@, instance_id@),
{
    let mut name: String = instance_id.clone();
    name.append(".sock");
    join_path(dir, name.as_str())
}

/// The directory of the sockets: `rqbit` in the user's runtime directory, or
/// in `/tmp` where there is none.
pub open spec fn socket_dir_in(xdg_runtime_dir: Option<String>) -> Seq<char> {
    match xdg_runtime_dir {
        Some(base) => joined(base@, "rqbit"@),
        None => joined("/tmp"@, "rqbit"@),
    }
}

/// The directory of the sockets.
pub fn get_socket_dir(xdg_runtime_dir: Option<String>) -> (dir: String)
    ensures
        dir@ == socket_dir_in(xdg_runtime_dir),
{
    match xdg_runtime_dir {
        Some(base) => join_path(base.as_str(), "rqbit"),
        None => join_path("/tmp", "rqbit"),
    }
}

// ---------------------------------------------------------------------------
// Socket files
// ---------------------------------------------------------------------------

/// Whether a file of this name is a socket's: its extension is `sock`. A name
/// that is nothing but `.sock` has no extension.
pub open spec fn has_sock_extension(name: Seq<u8>) -> bool {
    name.len() > 5 && name.skip(name.len() - 5) == seq![0x2eu8, 0x73u8, 0x6fu8, 0x63u8, 0x6bu8]
}

/// Whether a file of this name is a socket's.
pub fn is_socket_file(name: &[u8]) -> (r: bool)
    ensures
        r == has_sock_extension(name@),
{
    let n: usize = name.len();
    let ghost end = name@.skip(n - 5);
    let ghost ext = seq![0x2eu8, 0x73u8, 0x6fu8, 0x63u8, 0x6bu8];
    let r: bool = n > 5 && name[n - 5] == 0x2e && name[n - 4] == 0x73 && name[n - 3] == 0x6f
        && name[n - 2] == 0x63 && name[n - 1] == 0x6b;
    proof {
        if n > 5 {
            assert(end[0] == name@[n - 5] && end[1] == name@[n - 4] && end[2] == name@[n - 3]
                && end[3] == name@[n - 2] && end[4] == name@[n - 1]);
            if r {
                assert(end == ext);
            } else if end == ext {
                assert(ext[0] == 0x2e && ext[1] == 0x73 && ext[2] == 0x6f && ext[3] == 0x63
                    && ext[4] == 0x6b);
            }
        }
    }
    r
}

/// Whether the socket file of this name is left over from an instance that is
/// gone: nobody `answered` on it.
pub fn is_stale_socket(name: &[u8], answered: bool) -> (r: bool)
    ensures
        r == (has_sock_extension(name@) && !answered),
{
    is_socket_file(name) && !answered
}

/// Whether a change to files of these names concerns a socket.
pub fn concerns_sockets(names: &Vec<Vec<u8>>) -> (r: bool)
    ensures
        r == exists|i: int| 0 <= i < names.len() && has_sock_extension(#[trigger] names[i]@),
{
    let n: usize = names.len();
    for i in 0..n
        invariant
            n == names.len(),
            forall|j: int| 0 <= j < i ==> !has_sock_extension(#[trigger] names[j]@),
    {
        if is_socket_file(names[i].as_slice()) {
            return true;
        }
    }
    false
}

/// The instance whose socket has the file name `name`, unless it is `own`.
pub open spec fn peer_of_socket(name: Seq<char>, own: Seq<char>) -> Option<Seq<char>> {
    if name.len() >= 5 && name.skip(name.len() - 5) == ".sock"@ && name.take(name.len() - 5)
        != own {
        Some(name.take(name.len() - 5))
    } else {
        None
    }
}

/// The instance whose socket has the file name `name`, unless it is `own`.
pub fn peer_from_socket_name(name: &str, own: &InstanceId) -> (r: Option<InstanceId>)
    ensures
        match peer_of_socket(name@, own@) {
            Some(id) => r matches Some(peer) && peer@ == id,
            None => r is None,
        },
{
    let n: usize = name.unicode_len();
    proof {
        reveal_strlit(".sock");
    }
    if n < 5 {
        return None;
    }
    let suffix: String = name.substring_char(n - 5, n).to_owned();
    assert(suffix@ == name@.skip(n - 5));
    if suffix != ".sock".to_owned() {
        return None;
    }
    let id: String = name.substring_char(0, n - 5).to_owned();
    assert(id@ == name@.take(n - 5));
    if id == *own {
        return None;
    }
    Some(id)
}

/// The socket of another instance is recognized as that instance's.
pub proof fn law_socket_names_tell_the_instance(instance_id: Seq<char>, own: Seq<char>)
    requires
        instance_id != own,
    ensures
        peer_of_socket(socket_name(instance_id), own) == Some(instance_id),
        peer_of_socket(socket_name(own), own) is None,
{
    reveal_strlit(".sock");
    let name = socket_name(instance_id);
    assert(name.skip(name.len() - 5) == ".sock"@);
    assert(name.take(name.len() - 5) == instance_id);
    let own_name = socket_name(own);
    assert(own_name.take(own_name.len() - 5) == own);
}

/// The UTF-8 bytes of two texts in a row.
proof fn lemma_encode_concat(a: Seq<char>, b: Seq<char>)
    ensures
        encode_utf8(a + b) == encode_utf8(a) + encode_utf8(b),
    decreases a.len(),
{
    if a.len() == 0 {
        assert(a + b == b);
        assert(encode_utf8(a) + encode_utf8(b) == encode_utf8(b));
    } else {
        lemma_encode_concat(a.drop_first(), b);
        assert((a + b).drop_first() == a.drop_first() + b);
        assert((a + b)[0] == a[0]);
        assert(encode_utf8(a + b) == encode_utf8(a) + encode_utf8(b));
    }
}

/// The socket file of every instance has the extension by which sockets are
/// told from other files.
pub proof fn law_socket_names_have_the_extension(instance_id: Seq<char>)
    requires
        instance_id.len() > 0,
    ensures
        has_sock_extension(encode_utf8(socket_name(instance_id))),
{
    reveal_strlit(".sock");
    let id = encode_utf8(instance_id);
    let ext = encode_utf8(".sock"@);
    let name = encode_utf8(socket_name(instance_id));
    lemma_encode_concat(instance_id, ".sock"@);
    assert(vstd::utf8::is_ascii_chars(".sock"@));
    vstd::utf8::is_ascii_chars_encode_utf8(".sock"@);
    assert(ext == seq![0x2eu8, 0x73u8, 0x6fu8, 0x63u8, 0x6bu8]);
    assert(name.skip(name.len() - 5) == ext);
    assert(id.len() > 0);
}

/// Numbers of at most `width` digits that are written alike are the same.
proof fn lemma_hex_injective(a: nat, b: nat, width: nat)
    requires
        a < vstd::arithmetic::power::pow(16, width),
        b < vstd::arithmetic::power::pow(16, width),
        hex(a, width) == hex(b, width),
    ensures
        a == b,
    decreases width,
{
    reveal_with_fuel(vstd::arithmetic::power::pow, 2);
    if width > 0 {
        reveal_strlit("0123456789abcdef");
        let low = (width - 1) as nat;
        let x = hex(a / 16, low).push(hex_digit((a % 16) as int));
        let y = hex(b / 16, low).push(hex_digit((b % 16) as int));
        assert(x == hex(a, width) && y == hex(b, width));
        assert(x.drop_last() == hex(a / 16, low));
        assert(y.drop_last() == hex(b / 16, low));
        assert(x.last() == y.last());
        assert(a % 16 == b % 16);
        lemma_hex_injective(a / 16, b / 16, low);
    }
}

/// A number is written with as many digits as it is asked for.
proof fn lemma_hex_len(n: nat, width: nat)
    ensures
        hex(n, width).len() == width,
    decreases width,
{
    if width > 0 {
        lemma_hex_len(n / 16, (width - 1) as nat);
    }
}

/// Instances of different processes, or that drew different numbers, have
/// different names, and every name has 25 characters.
pub proof fn law_instance_ids_are_distinct(pid: u32, random: u64, other_pid: u32, other: u64)
    ensures
        instance_id_text(pid, random).len() == 25,
        instance_id_text(pid, random) == instance_id_text(other_pid, other) ==> pid == other_pid
            && random == other,
{
    lemma_hex_len(pid as nat, 8);
    lemma_hex_len(other_pid as nat, 8);
    lemma_hex_len(random as nat, 16);
    lemma_hex_len(other as nat, 16);
    let x = instance_id_text(pid, random);
    let y = instance_id_text(other_pid, other);
    if x == y {
        assert(x.take(8) == hex(pid as nat, 8));
        assert(y.take(8) == hex(other_pid as nat, 8));
        assert(x.skip(9) == hex(random as nat, 16));
        assert(y.skip(9) == hex(other as nat, 16));
        assert(vstd::arithmetic::power::pow(16, 8) == 0x1_0000_0000) by {
            reveal_with_fuel(vstd::arithmetic::power::pow, 9);
        }
        assert(vstd::arithmetic::power::pow(16, 16) == 0x1_0000_0000_0000_0000) by {
            reveal_with_fuel(vstd::arithmetic::power::pow, 17);
        }
        lemma_hex_injective(pid as nat, other_pid as nat, 8);
        lemma_hex_injective(random as nat, other as nat, 16);
    }
}

/// The number that a text of hexadecimal digits says, the letters being small.
pub open spec fn hex_said(text: Seq<char>) -> int
    decreases text.len(),
{
    if text.len() == 0 {
        0
    } else {
        let digit = text.last() as int;
        16 * hex_said(text.drop_last()) + if digit <= '9' as int {
            digit - '0' as int
        } else {
            digit - 'a' as int + 10
        }
    }
}

/// A number that fits in the digits it is written with is what they say. They
/// are digits or small letters up to f, as many as asked for.
pub proof fn law_hex_says_the_number(n: nat, width: nat)
    requires
        n < vstd::arithmetic::power::pow(16, width),
    ensures
        hex(n, width).len() == width,
        hex_said(hex(n, width)) == n,
        forall|i: int|
            0 <= i < width ==> ('0' as int <= #[trigger] hex(n, width)[i] as int <= '9' as int
                || 'a' as int <= hex(n, width)[i] as int <= 'f' as int),
    decreases width,
{
    reveal_with_fuel(vstd::arithmetic::power::pow, 2);
    if width > 0 {
        reveal_strlit("0123456789abcdef");
        let low = (width - 1) as nat;
        law_hex_says_the_number(n / 16, low);
        let text = hex(n, width);
        assert(text.drop_last() =~= hex(n / 16, low));
        assert(text.last() == hex_digit((n % 16) as int));
        assert forall|i: int| 0 <= i < width implies ('0' as int <= #[trigger] text[i] as int
            <= '9' as int || 'a' as int <= text[i] as int <= 'f' as int) by {
            if i < low {
                assert(text[i] == hex(n / 16, low)[i]);
            }
        }
    }
}

/// The name of an instance says the process that it runs as in eight digits
/// and, behind a dash, the number that it drew in sixteen.
pub proof fn law_names_say_process_and_number(pid: u32, random: u64)
    ensures
        instance_id_text(pid, random).len() == 25,
        hex_said(instance_id_text(pid, random).take(8)) == pid,
        instance_id_text(pid, random)[8] == '-',
        hex_said(instance_id_text(pid, random).skip(9)) == random,
{
    assert(vstd::arithmetic::power::pow(16, 8) == 0x1_0000_0000) by {
        reveal_with_fuel(vstd::arithmetic::power::pow, 9);
    }
    assert(vstd::arithmetic::power::pow(16, 16) == 0x1_0000_0000_0000_0000) by {
        reveal_with_fuel(vstd::arithmetic::power::pow, 17);
    }
    law_hex_says_the_number(pid as nat, 8);
    law_hex_says_the_number(random as nat, 16);
    let name = instance_id_text(pid, random);
    assert(name.take(8) =~= hex(pid as nat, 8));
    assert(name.skip(9) =~= hex(random as nat, 16));
}

/// A path is a directory and a name with one slash between them, unless the
/// directory brings it or is empty. A name from the root stands alone.
pub proof fn law_paths_have_one_slash_between(dir: Seq<char>, name: Seq<char>)
    ensures
        name.len() > 0 && name[0] == '/' ==> joined(dir, name) == name,
        (name.len() == 0 || name[0] != '/') && dir.len() == 0 ==> joined(dir, name) == name,
        (name.len() == 0 || name[0] != '/') && dir.len() > 0 && dir.last() == '/' ==> joined(
            dir,
            name,
        ) == dir + name,
        (name.len() == 0 || name[0] != '/') && dir.len() > 0 && dir.last() != '/' ==> joined(
            dir,
            name,
        ) == dir.push('/') + name,
{
    assert(dir + seq!['/'] =~= dir.push('/'));
    if dir.len() == 0 {
        assert(dir + name =~= name);
    }
}

/// The socket of an instance has its name and the ending, and lies in the
/// directory of the sockets: `rqbit` in the runtime directory, or in `/tmp`.
pub proof fn law_where_sockets_are(dir: Seq<char>, instance_id: Seq<char>, base: String)
    ensures
        socket_name(instance_id) == instance_id + seq!['.', 's', 'o', 'c', 'k'],
        socket_path_in(dir, instance_id) == joined(dir, socket_name(instance_id)),
        socket_dir_in(Some(base)) == joined(base@, seq!['r', 'q', 'b', 'i', 't']),
        socket_dir_in(None) == seq!['/', 't', 'm', 'p', '/', 'r', 'q', 'b', 'i', 't'],
{
    reveal_strlit(".sock");
    reveal_strlit("rqbit");
    reveal_strlit("/tmp");
    assert(".sock"@ =~= seq!['.', 's', 'o', 'c', 'k']);
    assert("rqbit"@ =~= seq!['r', 'q', 'b', 'i', 't']);
    assert(socket_dir_in(None) =~= seq!['/', 't', 'm', 'p', '/', 'r', 'q', 'b', 'i', 't']);
}

/// A file is a socket's exactly if its name is something and then the ending.
pub proof fn law_sockets_end_in_sock(name: Seq<u8>, stem: Seq<u8>)
    ensures
        has_sock_extension(stem + seq![46u8, 115, 111, 99, 107]) <==> stem.len() > 0,
        has_sock_extension(name) ==> name.len() > 5 && name == name.subrange(0, name.len() - 5)
            + seq![46u8, 115, 111, 99, 107],
{
    let ext = seq![46u8, 115, 111, 99, 107];
    let whole = stem + ext;
    assert(whole.skip(whole.len() - 5) =~= ext);
    if has_sock_extension(name) {
        assert(name =~= name.subrange(0, name.len() - 5) + name.skip(name.len() - 5));
    }
}

/// A file name tells of an instance exactly if it is that of the instance's
/// socket and the instance is another one.
pub proof fn law_only_sockets_tell_instances(name: Seq<char>, own: Seq<char>, id: Seq<char>)
    ensures
        peer_of_socket(name, own) == Some(id) <==> id != own && name == id + seq![
            '.',
            's',
            'o',
            'c',
            'k',
        ],
{
    reveal_strlit(".sock");
    let ext = seq!['.', 's', 'o', 'c', 'k'];
    assert(".sock"@ =~= ext);
    if name.len() >= 5 {
        assert(name =~= name.take(name.len() - 5) + name.skip(name.len() - 5));
    }
    if name == id + ext {
        assert(name.take(name.len() - 5) =~= id);
        assert(name.skip(name.len() - 5) =~= ext);
    }
}

} // verus!
