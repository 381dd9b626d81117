//! Le format PPM binaire (`P6`), lu sans dépendance : de quoi charger une texture d'un fichier.
//!
//! Après la signature `P6`, les blancs et les commentaires (`#` jusqu'à la fin de la ligne) sont
//! sautés ; les trente octets suivants portent l'en-tête — largeur, hauteur, valeur maximale —
//! séparés par des blancs. Les pixels sont les `3 × largeur × hauteur` derniers octets du fichier,
//! rendus en RVBA opaque.

use vstd::prelude::*;
use vstd::utf8::{valid_utf8, decode_utf8};
use vstd::slice::slice_subrange;
use crate::banc::blanc_unicode;

verus! {

/// Ce qui empêche de lire une image.
#[derive(Clone, Copy, PartialEq, Eq, Debug, Structural)]
pub enum ErreurPpm {
    /// Ce n'est pas un PPM binaire lisible : signature, en-tête ou dimensions manquent.
    FormatNonSupporte,
    /// Un commentaire court jusqu'à la fin du fichier : l'en-tête n'est jamais refermé.
    EnTeteInacheve,
    /// Les dimensions annoncées dépassent ce que le fichier porte, ou ce qu'un `u32` compte.
    ImageTropGrande,
}

/// Une image lue : ses dimensions et ses pixels RVBA, ligne après ligne.
pub struct ImagePpm {
    pub largeur: u32,
    pub hauteur: u32,
    pub rgba: Vec<u8>,
}

/// Un blanc ASCII : espace, tabulation, saut de ligne, saut de page, retour chariot.
pub open spec fn blanc_ascii(b: u8) -> bool {
    b == 0x20u8 || b == 0x09u8 || b == 0x0Au8 || b == 0x0Cu8 || b == 0x0Du8
}

/// La fin d'un commentaire commencé en `p` : le premier saut de ligne, ou la fin du fichier.
pub open spec fn fin_du_commentaire(o: Seq<u8>, p: int) -> int
    decreases o.len() - p,
{
    if p < 0 || p >= o.len() || o[p] == 0x0Au8 {
        p
    } else {
        fin_du_commentaire(o, p + 1)
    }
}

/// Un commentaire finit entre son début et la fin du fichier.
pub proof fn lemme_fin_du_commentaire(o: Seq<u8>, p: int)
    requires
        0 <= p <= o.len(),
    ensures
        p <= fin_du_commentaire(o, p) <= o.len(),
        fin_du_commentaire(o, p) < o.len() ==> o[fin_du_commentaire(o, p)] == 0x0Au8,
    decreases o.len() - p,
{
    if p < o.len() && o[p] != 0x0Au8 {
        lemme_fin_du_commentaire(o, p + 1);
    }
}

/// Où l'en-tête commence, en sautant depuis `p` les blancs et les commentaires. Un commentaire
/// qui court jusqu'à la fin du fichier mène une position au-delà de la fin.
pub open spec fn saut(o: Seq<u8>, p: int) -> int
    decreases o.len() + 1 - p,
{
    if 0 <= p < o.len() && (o[p] == 0x23u8 || blanc_ascii(o[p])) {
        if o[p] == 0x23u8 {
            proof {
                lemme_fin_du_commentaire(o, p);
            }
            saut(o, fin_du_commentaire(o, p) + 1)
        } else {
            saut(o, p + 1)
        }
    } else {
        p
    }
}

/// Le texte de l'en-tête : les trente octets qui suivent les blancs, s'ils sont de l'UTF-8 —
/// et rien sinon.
pub open spec fn texte_de_l_en_tete(o: Seq<u8>, p: int) -> Seq<char> {
    let fin = if p + 30 <= o.len() { p + 30 } else { o.len() as int };
    let fenetre = o.subrange(p, fin);
    if valid_utf8(fenetre) { decode_utf8(fenetre) } else { Seq::empty() }
}

/// Les mots d'un texte : ses suites maximales de caractères qui ne sont pas des blancs Unicode
/// (propriété `White_Space`), dans l'ordre.
pub open spec fn mots_separes(texte: Seq<char>) -> Seq<Seq<char>>
    decreases texte.len(),
{
    if texte.len() == 0 {
        Seq::empty()
    } else {
        let avant = mots_separes(texte.drop_last());
        let c = texte.last();
        if blanc_unicode(c) {
            avant
        } else if texte.len() >= 2 && !blanc_unicode(texte[texte.len() - 2]) {
            avant.update(avant.len() - 1, avant.last().push(c))
        } else {
            avant.push(seq![c])
        }
    }
}

/// Un chiffre décimal ASCII.
pub open spec fn chiffre(c: char) -> bool {
    0x30 <= c as u32 <= 0x39
}

/// La valeur décimale d'une suite de chiffres.
pub open spec fn valeur_decimale(s: Seq<char>) -> nat
    decreases s.len(),
{
    if s.len() == 0 {
        0
    } else {
        valeur_decimale(s.drop_last()) * 10 + (s.last() as u32 - 0x30) as nat
    }
}

/// Ce qu'un texte vaut lu comme un `u32` : un `+` facultatif, au moins un chiffre, et rien
/// d'autre, sans dépasser `u32::MAX`.
pub open spec fn lecture_u32(s: Seq<char>) -> Option<u32> {
    let c = if s.len() > 0 && s[0] == '+' { s.drop_first() } else { s };
    if c.len() > 0 && (forall|i: int| 0 <= i < c.len() ==> #[trigger] chiffre(c[i]))
        && valeur_decimale(c) <= u32::MAX {
        Some(valeur_decimale(c) as u32)
    } else {
        None
    }
}

/// Les pixels RVB `donnees`, rendus en RVBA opaque.
pub open spec fn rgba_de(donnees: Seq<u8>) -> Seq<u8> {
    Seq::new((donnees.len() / 3 * 4) as nat, |i: int| if i % 4 == 3 { 255u8 } else { donnees[(i / 4) * 3 + i % 4] })
}

/// L'image que des mots d'en-tête annoncent, lue dans le fichier `o` : la largeur et la hauteur
/// sont les deux premiers mots (zéro s'ils ne se lisent pas), le troisième doit exister.
pub open spec fn image_des_mots(o: Seq<u8>, mots: Seq<Seq<char>>) -> Result<(u32, u32, Seq<u8>), ErreurPpm> {
    if mots.len() < 3 {
        Err(ErreurPpm::FormatNonSupporte)
    } else {
        let l = match lecture_u32(mots[0]) { Some(n) => n, None => 0u32 };
        let h = match lecture_u32(mots[1]) { Some(n) => n, None => 0u32 };
        if l == 0 || h == 0 {
            Err(ErreurPpm::FormatNonSupporte)
        } else if l * h * 4 > u32::MAX || l * h * 3 > o.len() {
            Err(ErreurPpm::ImageTropGrande)
        } else {
            Ok((l, h, rgba_de(o.subrange(o.len() - l * h * 3, o.len() as int))))
        }
    }
}

/// Ce que la lecture d'un fichier PPM donne.
pub open spec fn resultat_ppm(o: Seq<u8>) -> Result<(u32, u32, Seq<u8>), ErreurPpm> {
    if !(o.len() > 10 && o[0] == 0x50u8 && o[1] == 0x36u8) {
        Err(ErreurPpm::FormatNonSupporte)
    } else {
        let p = saut(o, 3);
        if p > o.len() {
            Err(ErreurPpm::EnTeteInacheve)
        } else {
            image_des_mots(o, mots_separes(texte_de_l_en_tete(o, p)))
        }
    }
}

/// Le résultat d'une lecture, tel que les contrats le décrivent.
pub open spec fn lu_comme(r: Result<ImagePpm, ErreurPpm>, attendu: Result<(u32, u32, Seq<u8>), ErreurPpm>) -> bool {
    match attendu {
        Ok((l, h, rgba)) => r matches Ok(image) && image.largeur == l && image.hauteur == h
            && image.rgba@ == rgba,
        Err(e) => r matches Err(e2) && e2 == e,
    }
}

/// `std::str::from_utf8` : le texte que des octets encodent, s'ils sont de l'UTF-8 valide, et
/// rien sinon.
#[verifier::external_body]
fn texte_de(octets: &[u8]) -> (r: Option<&str>)
    ensures
        r.is_some() == valid_utf8(octets@),
        r matches Some(t) ==> t@ == decode_utf8(octets@),
{
    std::str::from_utf8(octets).ok()
}

/// `str::split_whitespace` : les mots d'un texte, séparés par des blancs Unicode (propriété
/// `White_Space`), sans mot vide.
#[verifier::external_body]
fn mots_de(texte: &str) -> (r: Vec<&str>)
    ensures
        r@.map_values(|m: &str| m@) == mots_separes(texte@),
{
    texte.split_whitespace().collect()
}

/// `str::parse::<u32>` : un `+` facultatif suivi de chiffres décimaux, sans dépassement.
#[verifier::external_body]
pub(crate) fn entier_de(mot: &str) -> (r: Option<u32>)
    ensures
        r == lecture_u32(mot@),
{
    mot.parse::<u32>().ok()
}

/// `u8::is_ascii_whitespace`.
fn est_blanc(b: u8) -> (r: bool)
    ensures
        r == blanc_ascii(b),
{
    b == 0x20u8 || b == 0x09u8 || b == 0x0Au8 || b == 0x0Cu8 || b == 0x0Du8
}

/// Où l'en-tête commence, après la signature et les blancs et commentaires qui la suivent.
pub fn debut_de_l_en_tete(octets: &[u8]) -> (p: usize)
    requires
        3 <= octets@.len() < usize::MAX,
    ensures
        p as int == saut(octets@, 3),
{
    let n = octets.len();
    let mut pos: usize = 3;
    while pos < n && (octets[pos] == 0x23u8 || est_blanc(octets[pos]))
        invariant
            n == octets@.len(),
            n < usize::MAX,
            3 <= pos <= n + 1,
            saut(octets@, pos as int) == saut(octets@, 3),
        decreases n + 1 - pos,
    {
        if octets[pos] == 0x23u8 {
            let ghost debut = pos as int;
            proof {
                lemme_fin_du_commentaire(octets@, debut);
            }
            while pos < n && octets[pos] != 0x0Au8
                invariant
                    n == octets@.len(),
                    debut <= pos <= n,
                    fin_du_commentaire(octets@, pos as int) == fin_du_commentaire(octets@, debut),
                decreases n - pos,
            {
                pos = pos + 1;
            }
        }
        pos = pos + 1;
    }
    pos
}

/// Les pixels RVB rendus en RVBA opaque.
pub fn pixels_rgba(donnees: &[u8]) -> (r: Vec<u8>)
    requires
        donnees@.len() % 3 == 0,
        donnees@.len() / 3 * 4 <= usize::MAX,
    ensures
        r@ == rgba_de(donnees@),
{
    let n = donnees.len();
    let mut r: Vec<u8> = Vec::new();
    let mut i: usize = 0;
    while i < n
        invariant
            n == donnees@.len(),
            n % 3 == 0,
            n / 3 * 4 <= usize::MAX,
            i % 3 == 0,
            i <= n,
            r@.len() == i / 3 * 4,
            forall|j: int| 0 <= j < r@.len() ==> #[trigger] r@[j]
                == (if j % 4 == 3 { 255u8 } else { donnees@[(j / 4) * 3 + j % 4] }),
        decreases n - i,
    {
        proof {
            assert(i + 3 <= n);
        }
        r.push(donnees[i]);
        r.push(donnees[i + 1]);
        r.push(donnees[i + 2]);
        r.push(255u8);
        i = i + 3;
    }
    proof {
        assert(r@ =~= rgba_de(donnees@));
    }
    r
}

/// L'image que les mots d'un en-tête annoncent, lue dans le fichier `octets`.
pub fn image_des_mots_lus(octets: &[u8], mots: &[&str]) -> (r: Result<ImagePpm, ErreurPpm>)
    ensures
        lu_comme(r, image_des_mots(octets@, mots@.map_values(|m: &str| m@))),
{
    let n = octets.len();
    let ghost vus = mots@.map_values(|m: &str| m@);
    if mots.len() < 3 {
        return Err(ErreurPpm::FormatNonSupporte);
    }
    let premier: &str = mots[0];
    let second: &str = mots[1];
    proof {
        assert(vus[0] == premier@);
        assert(vus[1] == second@);
    }
    let l: u32 = match entier_de(premier) {
        Some(x) => x,
        None => 0,
    };
    let h: u32 = match entier_de(second) {
        Some(x) => x,
        None => 0,
    };
    if l == 0 || h == 0 {
        return Err(ErreurPpm::FormatNonSupporte);
    }
    proof {
        assert(l as u64 * h as u64 <= u32::MAX as u64 * u32::MAX as u64) by (nonlinear_arith);
    }
    let surface = l as u64 * h as u64;
    if surface > (u32::MAX / 4) as u64 || surface * 3 > n as u64 {
        return Err(ErreurPpm::ImageTropGrande);
    }
    let octets_des_pixels = (surface * 3) as usize;
    let donnees = slice_subrange(octets, n - octets_des_pixels, n);
    let rgba = pixels_rgba(donnees);
    proof {
        assert(octets_des_pixels == l * h * 3);
        assert(donnees@ == octets@.subrange(n - l * h * 3, n as int));
    }
    Ok(ImagePpm { largeur: l, hauteur: h, rgba })
}

/// Lit un fichier PPM binaire. Chaque issue du format correspond à une erreur distincte.
pub fn decoder_ppm(octets: &[u8]) -> (r: Result<ImagePpm, ErreurPpm>)
    requires
        octets@.len() < usize::MAX,
    ensures
        lu_comme(r, resultat_ppm(octets@)),
{
    let n = octets.len();
    if !(n > 10 && octets[0] == 0x50u8 && octets[1] == 0x36u8) {
        return Err(ErreurPpm::FormatNonSupporte);
    }
    let pos = debut_de_l_en_tete(octets);
    if pos > n {
        return Err(ErreurPpm::EnTeteInacheve);
    }
    let fin = if n >= 30 && pos <= n - 30 { pos + 30 } else { n };
    let fenetre = slice_subrange(octets, pos, fin);
    let vide = "";
    proof {
        reveal_strlit("");
    }
    let texte: &str = match texte_de(fenetre) {
        Some(t) => t,
        None => vide,
    };
    proof {
        let fin_spec = if pos + 30 <= n { pos + 30 } else { n as int };
        assert(fin == fin_spec);
        assert(fenetre@ == octets@.subrange(pos as int, fin_spec));
        assert(texte@ == texte_de_l_en_tete(octets@, pos as int));
    }
    let mots = mots_de(texte);
    image_des_mots_lus(octets, mots.as_slice())
}

} // verus!
