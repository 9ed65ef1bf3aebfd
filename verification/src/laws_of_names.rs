//! What the rules on names come down to, byte by byte.
use crate::bytes::{
    after_last, ascii, ends_with_but_case, is_alphanumeric, last_position, lemma_last_position,
    lowercase, same_but_case, views,
};
use crate::decoration::{decorated, name_class, DecorationTally, NameClass};
use crate::paths::{
    file_name, file_stem, lib_name, names_primary_source, names_system_lib,
    names_translation_unit, normalised, release_name, without_object_extension,
};
use crate::relocs::{constant_name, names_narrow_string, names_string, names_wide_string};
use crate::roots::is_system_path;
use vstd::prelude::*;

verus! {

/// Whether two bytes are the same, or the capital and the small form of one
/// ASCII letter.
pub open spec fn letters_agree(a: u8, b: u8) -> bool {
    ||| a == b
    ||| 0x41 <= a <= 0x5a && b == a + 0x20
    ||| 0x41 <= b <= 0x5a && a == b + 0x20
}

/// Whether `s` spells `word`, in whatever case.
pub open spec fn spells(s: Seq<u8>, word: Seq<u8>) -> bool {
    &&& s.len() == word.len()
    &&& forall|i: int| 0 <= i < s.len() ==> letters_agree(#[trigger] s[i], word[i])
}

/// Whether `s` ends by spelling `word`, in whatever case.
pub open spec fn ends_spelling(s: Seq<u8>, word: Seq<u8>) -> bool {
    &&& s.len() >= word.len()
    &&& spells(s.subrange(s.len() - word.len(), s.len() as int), word)
}

/// Whether `s` starts by spelling `word`, in whatever case.
pub open spec fn starts_spelling(s: Seq<u8>, word: Seq<u8>) -> bool {
    &&& s.len() >= word.len()
    &&& spells(s.subrange(0, word.len() as int), word)
}

/// Putting into small letters moves the 26 capitals of ASCII by 32, and leaves
/// every other byte alone.
pub proof fn law_lowercase_moves_capitals_only(s: Seq<u8>)
    ensures
        lowercase(s).len() == s.len(),
        forall|i: int|
            0 <= i < s.len() ==> #[trigger] lowercase(s)[i] == if 0x41 <= s[i] <= 0x5a {
                (s[i] + 0x20) as u8
            } else {
                s[i]
            },
{
}

/// Two byte strings are the same but for case if they spell each other.
pub proof fn law_same_but_case_is_spelling(a: Seq<u8>, b: Seq<u8>)
    ensures
        same_but_case(a, b) <==> spells(a, b),
{
    assert(lowercase(a).len() == a.len());
    assert(lowercase(b).len() == b.len());
    if same_but_case(a, b) {
        assert forall|i: int| 0 <= i < a.len() implies letters_agree(#[trigger] a[i], b[i]) by {
            assert(lowercase(a)[i] == lowercase(b)[i]);
        }
    }
    if spells(a, b) {
        assert forall|i: int| 0 <= i < a.len() implies lowercase(a)[i] == lowercase(b)[i] by {
            assert(letters_agree(a[i], b[i]));
        }
        assert(lowercase(a) =~= lowercase(b));
    }
}

/// A byte string ends with another but for case if it ends by spelling it.
pub proof fn law_ends_with_is_spelling(s: Seq<u8>, suffix: Seq<u8>)
    ensures
        ends_with_but_case(s, suffix) <==> ends_spelling(s, suffix),
{
    if suffix.len() <= s.len() {
        let n = s.len() - suffix.len();
        assert(s.skip(n) =~= s.subrange(n, s.len() as int));
        law_same_but_case_is_spelling(s.skip(n), suffix);
    }
}

/// What follows the last `b` holds none, and all that stands before it ends in one.
pub proof fn law_after_last_is_what_follows(s: Seq<u8>, b: u8)
    ensures
        after_last(s, b).len() <= s.len(),
        s.subrange(s.len() - after_last(s, b).len(), s.len() as int) == after_last(s, b),
        !after_last(s, b).contains(b),
        after_last(s, b).len() < s.len() ==> s[s.len() - after_last(s, b).len() - 1] == b,
{
    lemma_last_position(s, b);
    let n = last_position(s, b) + 1;
    assert(s.skip(n) =~= s.subrange(n, s.len() as int));
}

/// The ASCII letters and digits are the bytes from `0` to `9`, `A` to `Z` and
/// `a` to `z`.
pub proof fn law_alphanumeric_bytes(b: u8)
    ensures
        is_alphanumeric(b) <==> (48 <= b <= 57 || 65 <= b <= 90 || 97 <= b <= 122),
{
}

/// A name that starts with `?`, `@` or `_` is left as it is; any other, the
/// empty one too, gets one underscore before it.
pub proof fn law_decoration_goes_by_the_first_byte(name: Seq<u8>)
    ensures
        name.len() == 0 ==> decorated(name) == seq![0x5fu8],
        name.len() > 0 && (name[0] == 0x3f || name[0] == 0x40 || name[0] == 0x5f)
            ==> decorated(name) == name,
        name.len() > 0 && name[0] != 0x3f && name[0] != 0x40 && name[0] != 0x5f ==> decorated(
            name,
        ) == seq![0x5fu8] + name,
{
    if name.len() == 0 {
        assert(decorated(name) =~= seq![0x5fu8]);
    }
}

/// Whatever the name, what comes out starts with `?`, `@` or `_`, and ends with
/// the name.
pub proof fn law_decorated_names_are_marked(name: Seq<u8>)
    ensures
        decorated(name).len() >= 1,
        decorated(name)[0] == 0x3f || decorated(name)[0] == 0x40 || decorated(name)[0] == 0x5f,
        decorated(name).len() <= name.len() + 1,
        decorated(name).len() >= name.len(),
        decorated(name).subrange(
            decorated(name).len() - name.len(),
            decorated(name).len() as int,
        ) == name,
{
    let r = decorated(name);
    assert(r.subrange(r.len() - name.len(), r.len() as int) =~= name);
}

/// Two names are decorated alike only if they are the same but for one leading
/// underscore.
pub proof fn law_decoration_confuses_underscores_only(a: Seq<u8>, b: Seq<u8>)
    requires
        decorated(a) == decorated(b),
    ensures
        a == b || a == seq![0x5fu8] + b || b == seq![0x5fu8] + a,
{
    let r = decorated(a);
    assert(r.len() == a.len() + 1 ==> a =~= r.skip(1));
    assert(r.len() == b.len() + 1 ==> b =~= r.skip(1));
}

/// The class of a name, by its first byte.
pub proof fn law_class_goes_by_the_first_byte(name: Seq<u8>)
    ensures
        name_class(name) == NameClass::Mangled <==> name.len() > 0 && (name[0] == 0x3f || name[0]
            == 0x40),
        name_class(name) == NameClass::Underscored <==> name.len() > 0 && name[0] == 0x5f,
        name_class(name) == NameClass::Bare <==> decorated(name).len() == name.len() + 1,
{
}

/// Counting a name raises one count by one, and no other: which, its first byte
/// says.
pub proof fn law_one_count_is_raised(tally: DecorationTally, name: Seq<u8>)
    ensures
        ({
            let after = tally.with(name);
            let mangled = name.len() > 0 && (name[0] == 0x3f || name[0] == 0x40);
            let underscored = name.len() > 0 && name[0] == 0x5f;
            let bare = !mangled && !underscored;
            &&& after.mangled == (tally.mangled + if mangled { 1int } else { 0 }) % (usize::MAX + 1)
            &&& after.underscored == (tally.underscored + if underscored { 1int } else { 0 }) % (
            usize::MAX + 1)
            &&& after.decorated == (tally.decorated + if bare { 1int } else { 0 }) % (usize::MAX
                + 1)
        }),
{
    lemma_small_remainder(tally.mangled as int);
    lemma_small_remainder(tally.underscored as int);
    lemma_small_remainder(tally.decorated as int);
    lemma_small_remainder(tally.mangled + 1);
    lemma_small_remainder(tally.underscored + 1);
    lemma_small_remainder(tally.decorated + 1);
}

/// A number divided by one that is larger, or the same.
proof fn lemma_small_remainder(n: int)
    requires
        0 <= n <= usize::MAX + 1,
    ensures
        n % (usize::MAX + 1) == if n == usize::MAX + 1 {
            0
        } else {
            n
        },
{
    if n == usize::MAX + 1 {
        vstd::arithmetic::div_mod::lemma_mod_self_0(n);
    } else {
        vstd::arithmetic::div_mod::lemma_small_mod(n as nat, (usize::MAX + 1) as nat);
    }
}

/// To count names in two tallies and put these together is to count them in one.
pub proof fn law_tallies_add_up(a: DecorationTally, b: DecorationTally, name: Seq<u8>)
    ensures
        a.plus(b.with(name)) == a.plus(b).with(name),
        a.plus(b) == b.plus(a),
        a.plus(DecorationTally::zero()) == a,
        DecorationTally::zero() == (DecorationTally { decorated: 0, underscored: 0, mangled: 0 }),
{
}

/// Putting tallies together adds their counts, which start over behind the
/// largest number.
pub proof fn law_tallies_are_added_count_by_count(a: DecorationTally, b: DecorationTally)
    ensures
        a.plus(b).decorated == (a.decorated + b.decorated) % (usize::MAX + 1),
        a.plus(b).underscored == (a.underscored + b.underscored) % (usize::MAX + 1),
        a.plus(b).mangled == (a.mangled + b.mangled) % (usize::MAX + 1),
{
    lemma_sum_remainder(a.decorated, b.decorated);
    lemma_sum_remainder(a.underscored, b.underscored);
    lemma_sum_remainder(a.mangled, b.mangled);
}

/// What adding with wrapping around comes to.
proof fn lemma_sum_remainder(a: usize, b: usize)
    ensures
        a.wrapping_add(b) == (a + b) % (usize::MAX + 1),
{
    let m = usize::MAX + 1;
    if a + b < m {
        lemma_small_remainder(a + b);
    } else {
        lemma_small_remainder(a + b - m);
        vstd::arithmetic::div_mod::lemma_mod_add_multiples_vanish(a + b - m, m);
    }
}

/// Normalising turns each `/` into a `\\`, and leaves every other byte alone.
pub proof fn law_normalising_turns_slashes_only(path: Seq<u8>)
    ensures
        normalised(path).len() == path.len(),
        forall|i: int|
            0 <= i < path.len() ==> #[trigger] normalised(path)[i] == if path[i] == 0x2f {
                0x5cu8
            } else {
                path[i]
            },
{
}

/// What is spelled in small letters and digits is what small letters make equal to it.
proof fn lemma_spelled_small(s: Seq<u8>, word: Seq<u8>)
    requires
        forall|i: int| 0 <= i < word.len() ==> !(0x41 <= #[trigger] word[i] <= 0x5a),
    ensures
        (lowercase(s) == word) == spells(s, word),
        word.is_prefix_of(lowercase(s)) == starts_spelling(s, word),
{
    lemma_spelled_whole(s, word);
    if word.len() <= s.len() {
        let head = s.subrange(0, word.len() as int);
        lemma_spelled_whole(head, word);
        assert(lowercase(head) =~= lowercase(s).subrange(0, word.len() as int));
    }
}

/// What is spelled in small letters and digits is what small letters make equal to it.
proof fn lemma_spelled_whole(s: Seq<u8>, word: Seq<u8>)
    requires
        forall|i: int| 0 <= i < word.len() ==> !(0x41 <= #[trigger] word[i] <= 0x5a),
    ensures
        (lowercase(s) == word) == spells(s, word),
{
    assert(lowercase(s).len() == s.len());
    if lowercase(s) == word {
        assert forall|i: int| 0 <= i < s.len() implies letters_agree(#[trigger] s[i], word[i]) by {
            assert(lowercase(s)[i] == word[i]);
        }
    }
    if spells(s, word) {
        assert forall|i: int| 0 <= i < s.len() implies lowercase(s)[i] == word[i] by {
            assert(letters_agree(s[i], word[i]));
        }
        assert(lowercase(s) =~= word);
    }
}

/// The libraries that are left out are these fourteen, in whatever case, and no
/// others.
pub proof fn law_system_libraries_are_fourteen(name: Seq<u8>)
    ensures
        names_system_lib(name) <==> (
            spells(
                name,
                seq![0x6bu8, 0x65u8, 0x72u8, 0x6eu8, 0x65u8, 0x6cu8, 0x33u8, 0x32u8],
            )
            || spells(
                name,
                seq![0x6cu8, 0x69u8, 0x62u8, 0x63u8, 0x6du8, 0x74u8, 0x64u8],
            )
            || spells(
                name,
                seq![0x6cu8, 0x69u8, 0x62u8, 0x63u8, 0x70u8, 0x6du8, 0x74u8, 0x64u8],
            )
            || spells(
                name,
                seq![0x73u8, 0x68u8, 0x65u8, 0x6cu8, 0x6cu8, 0x33u8, 0x32u8],
            )
            || spells(
                name,
                seq![0x75u8, 0x73u8, 0x65u8, 0x72u8, 0x33u8, 0x32u8],
            )
            || spells(
                name,
                seq![0x67u8, 0x64u8, 0x69u8, 0x33u8, 0x32u8],
            )
            || spells(
                name,
                seq![0x61u8, 0x64u8, 0x76u8, 0x61u8, 0x70u8, 0x69u8, 0x33u8, 0x32u8],
            )
            || spells(
                name,
                seq![0x6du8, 0x73u8, 0x76u8, 0x63u8, 0x72u8, 0x74u8],
            )
            || spells(
                name,
                seq![0x6du8, 0x73u8, 0x76u8, 0x63u8, 0x72u8, 0x74u8, 0x64u8],
            )
            || spells(
                name,
                seq![0x6fu8, 0x6cu8, 0x64u8, 0x6eu8, 0x61u8, 0x6du8, 0x65u8, 0x73u8],
            )
            || spells(
                name,
                seq![0x6cu8, 0x69u8, 0x62u8, 0x63u8, 0x6du8, 0x74u8],
            )
            || spells(
                name,
                seq![0x6cu8, 0x69u8, 0x62u8, 0x63u8, 0x70u8, 0x6du8, 0x74u8],
            )
            || spells(
                name,
                seq![0x6du8, 0x73u8, 0x76u8, 0x63u8, 0x70u8, 0x72u8, 0x74u8],
            )
            || spells(
                name,
                seq![0x6du8, 0x73u8, 0x76u8, 0x63u8, 0x70u8, 0x72u8, 0x74u8, 0x64u8],
            )),
{
    reveal_strlit("kernel32");
    let w_kernel32 = seq![0x6bu8, 0x65u8, 0x72u8, 0x6eu8, 0x65u8, 0x6cu8, 0x33u8, 0x32u8];
    assert(ascii("kernel32"@) =~= w_kernel32);
    lemma_spelled_small(name, w_kernel32);
    reveal_strlit("libcmtd");
    let w_libcmtd = seq![0x6cu8, 0x69u8, 0x62u8, 0x63u8, 0x6du8, 0x74u8, 0x64u8];
    assert(ascii("libcmtd"@) =~= w_libcmtd);
    lemma_spelled_small(name, w_libcmtd);
    reveal_strlit("libcpmtd");
    let w_libcpmtd = seq![0x6cu8, 0x69u8, 0x62u8, 0x63u8, 0x70u8, 0x6du8, 0x74u8, 0x64u8];
    assert(ascii("libcpmtd"@) =~= w_libcpmtd);
    lemma_spelled_small(name, w_libcpmtd);
    reveal_strlit("shell32");
    let w_shell32 = seq![0x73u8, 0x68u8, 0x65u8, 0x6cu8, 0x6cu8, 0x33u8, 0x32u8];
    assert(ascii("shell32"@) =~= w_shell32);
    lemma_spelled_small(name, w_shell32);
    reveal_strlit("user32");
    let w_user32 = seq![0x75u8, 0x73u8, 0x65u8, 0x72u8, 0x33u8, 0x32u8];
    assert(ascii("user32"@) =~= w_user32);
    lemma_spelled_small(name, w_user32);
    reveal_strlit("gdi32");
    let w_gdi32 = seq![0x67u8, 0x64u8, 0x69u8, 0x33u8, 0x32u8];
    assert(ascii("gdi32"@) =~= w_gdi32);
    lemma_spelled_small(name, w_gdi32);
    reveal_strlit("advapi32");
    let w_advapi32 = seq![0x61u8, 0x64u8, 0x76u8, 0x61u8, 0x70u8, 0x69u8, 0x33u8, 0x32u8];
    assert(ascii("advapi32"@) =~= w_advapi32);
    lemma_spelled_small(name, w_advapi32);
    reveal_strlit("msvcrt");
    let w_msvcrt = seq![0x6du8, 0x73u8, 0x76u8, 0x63u8, 0x72u8, 0x74u8];
    assert(ascii("msvcrt"@) =~= w_msvcrt);
    lemma_spelled_small(name, w_msvcrt);
    reveal_strlit("msvcrtd");
    let w_msvcrtd = seq![0x6du8, 0x73u8, 0x76u8, 0x63u8, 0x72u8, 0x74u8, 0x64u8];
    assert(ascii("msvcrtd"@) =~= w_msvcrtd);
    lemma_spelled_small(name, w_msvcrtd);
    reveal_strlit("oldnames");
    let w_oldnames = seq![0x6fu8, 0x6cu8, 0x64u8, 0x6eu8, 0x61u8, 0x6du8, 0x65u8, 0x73u8];
    assert(ascii("oldnames"@) =~= w_oldnames);
    lemma_spelled_small(name, w_oldnames);
    reveal_strlit("libcmt");
    let w_libcmt = seq![0x6cu8, 0x69u8, 0x62u8, 0x63u8, 0x6du8, 0x74u8];
    assert(ascii("libcmt"@) =~= w_libcmt);
    lemma_spelled_small(name, w_libcmt);
    reveal_strlit("libcpmt");
    let w_libcpmt = seq![0x6cu8, 0x69u8, 0x62u8, 0x63u8, 0x70u8, 0x6du8, 0x74u8];
    assert(ascii("libcpmt"@) =~= w_libcpmt);
    lemma_spelled_small(name, w_libcpmt);
    reveal_strlit("msvcprt");
    let w_msvcprt = seq![0x6du8, 0x73u8, 0x76u8, 0x63u8, 0x70u8, 0x72u8, 0x74u8];
    assert(ascii("msvcprt"@) =~= w_msvcprt);
    lemma_spelled_small(name, w_msvcprt);
    reveal_strlit("msvcprtd");
    let w_msvcprtd = seq![0x6du8, 0x73u8, 0x76u8, 0x63u8, 0x70u8, 0x72u8, 0x74u8, 0x64u8];
    assert(ascii("msvcprtd"@) =~= w_msvcprtd);
    lemma_spelled_small(name, w_msvcprtd);
}

/// The translation units are the paths that end in one of these six extensions,
/// in whatever case, and no others.
pub proof fn law_translation_units_have_six_extensions(path: Seq<u8>)
    ensures
        names_translation_unit(path) <==> (
            ends_spelling(path, seq![0x2eu8, 0x63u8])
            || ends_spelling(path, seq![0x2eu8, 0x63u8, 0x70u8, 0x70u8])
            || ends_spelling(path, seq![0x2eu8, 0x63u8, 0x63u8])
            || ends_spelling(path, seq![0x2eu8, 0x63u8, 0x78u8, 0x78u8])
            || ends_spelling(path, seq![0x2eu8, 0x61u8, 0x73u8, 0x6du8])
            || ends_spelling(path, seq![0x2eu8, 0x73u8])),
{
    reveal_strlit(".c");
    let w_c = seq![0x2eu8, 0x63u8];
    assert(ascii(".c"@) =~= w_c);
    law_ends_with_is_spelling(path, w_c);
    reveal_strlit(".cpp");
    let w_cpp = seq![0x2eu8, 0x63u8, 0x70u8, 0x70u8];
    assert(ascii(".cpp"@) =~= w_cpp);
    law_ends_with_is_spelling(path, w_cpp);
    reveal_strlit(".cc");
    let w_cc = seq![0x2eu8, 0x63u8, 0x63u8];
    assert(ascii(".cc"@) =~= w_cc);
    law_ends_with_is_spelling(path, w_cc);
    reveal_strlit(".cxx");
    let w_cxx = seq![0x2eu8, 0x63u8, 0x78u8, 0x78u8];
    assert(ascii(".cxx"@) =~= w_cxx);
    law_ends_with_is_spelling(path, w_cxx);
    reveal_strlit(".asm");
    let w_asm = seq![0x2eu8, 0x61u8, 0x73u8, 0x6du8];
    assert(ascii(".asm"@) =~= w_asm);
    law_ends_with_is_spelling(path, w_asm);
    reveal_strlit(".s");
    let w_s = seq![0x2eu8, 0x73u8];
    assert(ascii(".s"@) =~= w_s);
    law_ends_with_is_spelling(path, w_s);
}

/// The system's own directories are these three, in whatever case, and no others.
pub proof fn law_system_directories_are_three(path: Seq<u8>)
    ensures
        is_system_path(path) <==> (
            starts_spelling(
                path,
                seq![0x63u8, 0x3au8, 0x5cu8, 0x70u8, 0x72u8, 0x6fu8, 0x67u8, 0x72u8, 0x61u8, 0x6du8, 0x20u8, 0x66u8, 0x69u8, 0x6cu8, 0x65u8, 0x73u8],
            )
            || starts_spelling(
                path,
                seq![0x66u8, 0x3au8, 0x5cu8, 0x64u8, 0x64u8, 0x5cu8, 0x76u8, 0x63u8, 0x74u8, 0x6fu8, 0x6fu8, 0x6cu8, 0x73u8],
            )
            || starts_spelling(
                path,
                seq![0x63u8, 0x3au8, 0x5cu8, 0x64u8, 0x64u8, 0x5cu8, 0x76u8, 0x63u8, 0x74u8, 0x6fu8, 0x6fu8, 0x6cu8, 0x73u8],
            )),
{
    reveal_strlit("c:\\program files");
    let w_0 = seq![0x63u8, 0x3au8, 0x5cu8, 0x70u8, 0x72u8, 0x6fu8, 0x67u8, 0x72u8, 0x61u8, 0x6du8, 0x20u8, 0x66u8, 0x69u8, 0x6cu8, 0x65u8, 0x73u8];
    assert(ascii("c:\\program files"@) =~= w_0);
    lemma_spelled_small(path, w_0);
    reveal_strlit("f:\\dd\\vctools");
    let w_1 = seq![0x66u8, 0x3au8, 0x5cu8, 0x64u8, 0x64u8, 0x5cu8, 0x76u8, 0x63u8, 0x74u8, 0x6fu8, 0x6fu8, 0x6cu8, 0x73u8];
    assert(ascii("f:\\dd\\vctools"@) =~= w_1);
    lemma_spelled_small(path, w_1);
    reveal_strlit("c:\\dd\\vctools");
    let w_2 = seq![0x63u8, 0x3au8, 0x5cu8, 0x64u8, 0x64u8, 0x5cu8, 0x76u8, 0x63u8, 0x74u8, 0x6fu8, 0x6fu8, 0x6cu8, 0x73u8];
    assert(ascii("c:\\dd\\vctools"@) =~= w_2);
    lemma_spelled_small(path, w_2);
}

/// The file name of a path is what follows its last `\\`.
pub proof fn law_file_name_is_the_last_component(path: Seq<u8>)
    ensures
        file_name(path).len() <= path.len(),
        path.subrange(path.len() - file_name(path).len(), path.len() as int) == file_name(path),
        !file_name(path).contains(0x5cu8),
        file_name(path).len() < path.len() ==> path[path.len() - file_name(path).len() - 1]
            == 0x5c,
{
    law_after_last_is_what_follows(path, 0x5c);
}

/// The stem of a file name is all of it up to the last dot.
pub proof fn law_stem_ends_at_the_last_dot(path: Seq<u8>)
    ensures
        ({
            let name = file_name(path);
            let stem = file_stem(path);
            &&& stem.len() <= name.len()
            &&& name.subrange(0, stem.len() as int) == stem
            &&& stem.len() < name.len() ==> name[stem.len() as int] == 0x2e
            &&& forall|i: int| stem.len() < i < name.len() ==> name[i] != 0x2e
            &&& stem.len() == name.len() ==> !name.contains(0x2eu8)
        }),
{
    let name = file_name(path);
    lemma_last_position(name, 0x2e);
    assert(name.subrange(0, file_stem(path).len() as int) =~= file_stem(path));
}

/// A debug library is one whose name ends in `d` or `D`; without that letter it
/// is the name of the release build.
pub proof fn law_release_name_lacks_the_last_d(lib: Seq<u8>)
    ensures
        release_name(lib) is Some <==> lib.len() > 0 && (lib[lib.len() - 1] == 0x64 || lib[lib.len()
            - 1] == 0x44),
        release_name(lib) matches Some(release) ==> release == lib.subrange(0, lib.len() - 1),
{
    if lib.len() > 0 {
        assert(lib.drop_last() =~= lib.subrange(0, lib.len() - 1));
    }
}

/// A primary source has a file name that, without its extension, spells the name
/// of the library, or that name without its last `d`.
pub proof fn law_primary_sources_spell_the_library(path: Seq<u8>, lib: Seq<u8>)
    ensures
        names_primary_source(path, lib) <==> spells(file_stem(path), lib) || (lib.len() > 0 && (
        lib[lib.len() - 1] == 0x64 || lib[lib.len() - 1] == 0x44) && spells(
            file_stem(path),
            lib.subrange(0, lib.len() - 1),
        )),
{
    law_release_name_lacks_the_last_d(lib);
    law_same_but_case_is_spelling(file_stem(path), lib);
    if lib.len() > 0 {
        law_same_but_case_is_spelling(file_stem(path), lib.subrange(0, lib.len() - 1));
    }
}

/// The name of a library is a part of the path it comes from: a separator or
/// nothing stands before it, and behind it `.obj`, `.lib` or nothing. Such an
/// extension is never part of it, unless it is all there is.
pub proof fn law_lib_name_is_part_of_the_path(raw: Seq<u8>)
    ensures
        ({
            let lib = lib_name(raw);
            let has_extension = raw.len() > 4 && (ends_spelling(raw, seq![0x2eu8, 0x6fu8, 0x62u8, 0x6au8])
                || ends_spelling(raw, seq![0x2eu8, 0x6cu8, 0x69u8, 0x62u8]));
            let end = if has_extension {
                raw.len() - 4
            } else {
                raw.len() as int
            };
            &&& lib.len() <= end
            &&& raw.subrange(end - lib.len(), end) == lib
            &&& lib.len() < end ==> (raw[end - lib.len() - 1] == 0x5c || raw[end - lib.len() - 1]
                == 0x2f)
            &&& !lib.contains(0x5cu8)
            &&& !lib.contains(0x2fu8)
        }),
{
    reveal_strlit(".obj");
    reveal_strlit(".lib");
    let obj = seq![0x2eu8, 0x6fu8, 0x62u8, 0x6au8];
    let lib = seq![0x2eu8, 0x6cu8, 0x69u8, 0x62u8];
    assert(ascii(".obj"@) =~= obj);
    assert(ascii(".lib"@) =~= lib);
    law_ends_with_is_spelling(raw, obj);
    law_ends_with_is_spelling(raw, lib);
    let path = without_object_extension(raw);
    let turned = normalised(path);
    let start = last_position(turned, 0x5c) + 1;
    lemma_last_position(turned, 0x5c);
    assert(lib_name(raw) =~= raw.subrange(start, path.len() as int));
    if start > 0 {
        assert(turned[start - 1] == 0x5c);
    }
    assert forall|i: int| 0 <= i < lib_name(raw).len() implies lib_name(raw)[i] != 0x5c
        && lib_name(raw)[i] != 0x2f by {
        assert(turned[start + i] != 0x5c);
    }
}

/// The symbols of string literals start with `??_C@_0` for bytes and `??_C@_1`
/// for 16-bit units.
pub proof fn law_string_symbols_start_so(symbol: Seq<u8>)
    ensures
        names_narrow_string(symbol) <==> symbol.len() >= 7 && symbol.subrange(0, 7)
            == seq![0x3fu8, 0x3fu8, 0x5fu8, 0x43u8, 0x40u8, 0x5fu8, 0x30u8],
        names_wide_string(symbol) <==> symbol.len() >= 7 && symbol.subrange(0, 7)
            == seq![0x3fu8, 0x3fu8, 0x5fu8, 0x43u8, 0x40u8, 0x5fu8, 0x31u8],
        names_string(symbol) <==> names_narrow_string(symbol) || names_wide_string(symbol),
{
    reveal_strlit("??_C@_0");
    reveal_strlit("??_C@_1");
    assert(ascii("??_C@_0"@) =~= seq![0x3fu8, 0x3fu8, 0x5fu8, 0x43u8, 0x40u8, 0x5fu8, 0x30u8]);
    assert(ascii("??_C@_1"@) =~= seq![0x3fu8, 0x3fu8, 0x5fu8, 0x43u8, 0x40u8, 0x5fu8, 0x31u8]);
}

/// The name made for a string of bytes has its letters and digits in their
/// places, and underscores for all else.
pub proof fn law_narrow_strings_are_spelled(symbol: Seq<u8>, data: Seq<u8>)
    requires
        names_narrow_string(symbol),
    ensures
        constant_name(symbol, data).len() == data.len(),
        forall|i: int|
            0 <= i < data.len() ==> #[trigger] constant_name(symbol, data)[i] == if 48 <= data[i]
                <= 57 || 65 <= data[i] <= 90 || 97 <= data[i] <= 122 {
                data[i]
            } else {
                0x5f
            },
{
}

/// The name made for a string of 16-bit units has one byte less than the string:
/// the letters and digits that follow a zero byte, and underscores for all else.
pub proof fn law_wide_strings_are_spelled(symbol: Seq<u8>, data: Seq<u8>)
    requires
        names_wide_string(symbol),
    ensures
        constant_name(symbol, data).len() == if data.len() == 0 {
            0
        } else {
            data.len() - 1
        },
        forall|i: int|
            0 <= i < data.len() - 1 ==> #[trigger] constant_name(symbol, data)[i] == if data[i]
                == 0 && (48 <= data[i + 1] <= 57 || 65 <= data[i + 1] <= 90 || 97 <= data[i + 1]
                <= 122) {
                data[i + 1]
            } else {
                0x5f
            },
{
    law_string_symbols_start_so(symbol);
    if names_narrow_string(symbol) {
        assert(symbol.subrange(0, 7)[6] == 0x30);
        assert(symbol.subrange(0, 7)[6] == 0x31);
    }
}

/// Several byte strings are taken as they are, each in its place.
pub proof fn law_byte_strings_are_taken_as_they_are(v: Seq<Vec<u8>>, i: int)
    ensures
        views(v).len() == v.len(),
        0 <= i < v.len() ==> views(v)[i] == v[i]@,
{
}

} // verus!
