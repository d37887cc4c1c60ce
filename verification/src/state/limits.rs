//! The limits on a block body, which grow by four percent a month.

use vstd::prelude::*;

verus! {

/// The number of blocks in a month: six an hour, for thirty days.
pub const BLOCKS_PER_MONTH: u32 = 4320;

/// The number of months after which the limits stop growing.
pub const GROWTH_MONTHS: u32 = 120;

/// The limit on the number of authorizations in the first month.
pub const START_SIGOPS: usize = 42800;

/// The limit on the size of a body in the first month, in bytes: 8 MiB.
pub const START_SIZE: usize = 8388608;

/// `base` to the power `exp`.
pub open spec fn pow(base: int, exp: nat) -> int
    decreases exp,
{
    if exp == 0 {
        1
    } else {
        base * pow(base, (exp - 1) as nat)
    }
}

/// The limit that starts at `start` and grows by four percent with each
/// month of blocks, rounded down: `start` times 1.04 to the power of the
/// month. From month 120 on it stays at 111 times `start`.
pub open spec fn grown_limit(start: int, height: u32) -> int {
    let month = (height / 4320) as nat;
    if month < 120 {
        start * pow(26, month) / pow(25, month)
    } else {
        start * 111
    }
}

/// The most authorizations that the body of a block at `height` may hold.
pub open spec fn spec_body_sigops_limit(height: u32) -> int {
    grown_limit(42800, height)
}

/// The most bytes that the body of a block at `height` may take.
pub open spec fn spec_body_size_limit(height: u32) -> int {
    grown_limit(8388608, height)
}

/// The powers of 26 and of 25 with exponents from 0 up to 11.
proof fn lemma_powers_0()
    ensures
        pow(26, 0) == 1,
        pow(25, 0) == 1,
        pow(26, 1) == 26,
        pow(25, 1) == 25,
        pow(26, 2) == 676,
        pow(25, 2) == 625,
        pow(26, 3) == 17576,
        pow(25, 3) == 15625,
        pow(26, 4) == 456976,
        pow(25, 4) == 390625,
        pow(26, 5) == 11881376,
        pow(25, 5) == 9765625,
        pow(26, 6) == 308915776,
        pow(25, 6) == 244140625,
        pow(26, 7) == 8031810176int,
        pow(25, 7) == 6103515625int,
        pow(26, 8) == 208827064576int,
        pow(25, 8) == 152587890625int,
        pow(26, 9) == 5429503678976int,
        pow(25, 9) == 3814697265625int,
        pow(26, 10) == 141167095653376int,
        pow(25, 10) == 95367431640625int,
        pow(26, 11) == 3670344486987776int,
        pow(25, 11) == 2384185791015625int,
{
    assert(pow(26, 0) == 1);
    assert(pow(25, 0) == 1);
    assert(pow(26, 1) == 26 * pow(26, 0));
    assert(pow(25, 1) == 25 * pow(25, 0));
    assert(pow(26, 2) == 26 * pow(26, 1));
    assert(pow(25, 2) == 25 * pow(25, 1));
    assert(pow(26, 3) == 26 * pow(26, 2));
    assert(pow(25, 3) == 25 * pow(25, 2));
    assert(pow(26, 4) == 26 * pow(26, 3));
    assert(pow(25, 4) == 25 * pow(25, 3));
    assert(pow(26, 5) == 26 * pow(26, 4));
    assert(pow(25, 5) == 25 * pow(25, 4));
    assert(pow(26, 6) == 26 * pow(26, 5));
    assert(pow(25, 6) == 25 * pow(25, 5));
    assert(pow(26, 7) == 26 * pow(26, 6));
    assert(pow(25, 7) == 25 * pow(25, 6));
    assert(pow(26, 8) == 26 * pow(26, 7));
    assert(pow(25, 8) == 25 * pow(25, 7));
    assert(pow(26, 9) == 26 * pow(26, 8));
    assert(pow(25, 9) == 25 * pow(25, 8));
    assert(pow(26, 10) == 26 * pow(26, 9));
    assert(pow(25, 10) == 25 * pow(25, 9));
    assert(pow(26, 11) == 26 * pow(26, 10));
    assert(pow(25, 11) == 25 * pow(25, 10));
}

/// The powers of 26 and of 25 with exponents from 12 up to 23.
proof fn lemma_powers_1()
    ensures
        pow(26, 12) == 95428956661682176int,
        pow(25, 12) == 59604644775390625int,
        pow(26, 13) == 2481152873203736576int,
        pow(25, 13) == 1490116119384765625int,
        pow(26, 14) == 64509974703297150976int,
        pow(25, 14) == 37252902984619140625int,
        pow(26, 15) == 1677259342285725925376int,
        pow(25, 15) == 931322574615478515625int,
        pow(26, 16) == 43608742899428874059776int,
        pow(25, 16) == 23283064365386962890625int,
        pow(26, 17) == 1133827315385150725554176int,
        pow(25, 17) == 582076609134674072265625int,
        pow(26, 18) == 29479510200013918864408576int,
        pow(25, 18) == 14551915228366851806640625int,
        pow(26, 19) == 766467265200361890474622976int,
        pow(25, 19) == 363797880709171295166015625int,
        pow(26, 20) == 19928148895209409152340197376int,
        pow(25, 20) == 9094947017729282379150390625int,
        pow(26, 21) == 518131871275444637960845131776int,
        pow(25, 21) == 227373675443232059478759765625int,
        pow(26, 22) == 13471428653161560586981973426176int,
        pow(25, 22) == 5684341886080801486968994140625int,
        pow(26, 23) == 350257144982200575261531309080576int,
        pow(25, 23) == 142108547152020037174224853515625int,
{
    lemma_powers_0();
    assert(pow(26, 12) == 26 * pow(26, 11));
    assert(pow(25, 12) == 25 * pow(25, 11));
    assert(pow(26, 13) == 26 * pow(26, 12));
    assert(pow(25, 13) == 25 * pow(25, 12));
    assert(pow(26, 14) == 26 * pow(26, 13));
    assert(pow(25, 14) == 25 * pow(25, 13));
    assert(pow(26, 15) == 26 * pow(26, 14));
    assert(pow(25, 15) == 25 * pow(25, 14));
    assert(pow(26, 16) == 26 * pow(26, 15));
    assert(pow(25, 16) == 25 * pow(25, 15));
    assert(pow(26, 17) == 26 * pow(26, 16));
    assert(pow(25, 17) == 25 * pow(25, 16));
    assert(pow(26, 18) == 26 * pow(26, 17));
    assert(pow(25, 18) == 25 * pow(25, 17));
    assert(pow(26, 19) == 26 * pow(26, 18));
    assert(pow(25, 19) == 25 * pow(25, 18));
    assert(pow(26, 20) == 26 * pow(26, 19));
    assert(pow(25, 20) == 25 * pow(25, 19));
    assert(pow(26, 21) == 26 * pow(26, 20));
    assert(pow(25, 21) == 25 * pow(25, 20));
    assert(pow(26, 22) == 26 * pow(26, 21));
    assert(pow(25, 22) == 25 * pow(25, 21));
    assert(pow(26, 23) == 26 * pow(26, 22));
    assert(pow(25, 23) == 25 * pow(25, 22));
}

/// The powers of 26 and of 25 with exponents from 24 up to 35.
proof fn lemma_powers_2()
    ensures
        pow(26, 24) == 9106685769537214956799814036094976int,
        pow(25, 24) == 3552713678800500929355621337890625int,
        pow(26, 25) == 236773830007967588876795164938469376int,
        pow(25, 25) == 88817841970012523233890533447265625int,
        pow(26, 26) == 6156119580207157310796674288400203776int,
        pow(25, 26) == 2220446049250313080847263336181640625int,
        pow(26, 27) == 160059109085386090080713531498405298176int,
        pow(25, 27) == 55511151231257827021181583404541015625int,
        pow(26, 28) == 4161536836220038342098551818958537752576int,
        pow(25, 28) == 1387778780781445675529539585113525390625int,
        pow(26, 29) == 108199957741720996894562347292921981566976int,
        pow(25, 29) == 34694469519536141888238489627838134765625int,
        pow(26, 30) == 2813198901284745919258621029615971520741376int,
        pow(25, 30) == 867361737988403547205962240695953369140625int,
        pow(26, 31) == 73143171433403393900724146770015259539275776int,
        pow(25, 31) == 21684043449710088680149056017398834228515625int,
        pow(26, 32) == 1901722457268488241418827816020396748021170176int,
        pow(25, 32) == 542101086242752217003726400434970855712890625int,
        pow(26, 33) == 49444783888980694276889523216530315448550424576int,
        pow(25, 33) == 13552527156068805425093160010874271392822265625int,
        pow(26, 34) == 1285564381113498051199127603629788201662311038976int,
        pow(25, 34) == 338813178901720135627329000271856784820556640625int,
        pow(26, 35) == 33424673908950949331177317694374493243220087013376int,
        pow(25, 35) == 8470329472543003390683225006796419620513916015625int,
{
    lemma_powers_1();
    assert(pow(26, 24) == 26 * pow(26, 23));
    assert(pow(25, 24) == 25 * pow(25, 23));
    assert(pow(26, 25) == 26 * pow(26, 24));
    assert(pow(25, 25) == 25 * pow(25, 24));
    assert(pow(26, 26) == 26 * pow(26, 25));
    assert(pow(25, 26) == 25 * pow(25, 25));
    assert(pow(26, 27) == 26 * pow(26, 26));
    assert(pow(25, 27) == 25 * pow(25, 26));
    assert(pow(26, 28) == 26 * pow(26, 27));
    assert(pow(25, 28) == 25 * pow(25, 27));
    assert(pow(26, 29) == 26 * pow(26, 28));
    assert(pow(25, 29) == 25 * pow(25, 28));
    assert(pow(26, 30) == 26 * pow(26, 29));
    assert(pow(25, 30) == 25 * pow(25, 29));
    assert(pow(26, 31) == 26 * pow(26, 30));
    assert(pow(25, 31) == 25 * pow(25, 30));
    assert(pow(26, 32) == 26 * pow(26, 31));
    assert(pow(25, 32) == 25 * pow(25, 31));
    assert(pow(26, 33) == 26 * pow(26, 32));
    assert(pow(25, 33) == 25 * pow(25, 32));
    assert(pow(26, 34) == 26 * pow(26, 33));
    assert(pow(25, 34) == 25 * pow(25, 33));
    assert(pow(26, 35) == 26 * pow(26, 34));
    assert(pow(25, 35) == 25 * pow(25, 34));
}

/// The powers of 26 and of 25 with exponents from 36 up to 47.
proof fn lemma_powers_3()
    ensures
        pow(26, 36) == 869041521632724682610610260053736824323722262347776int,
        pow(25, 36) == 211758236813575084767080625169910490512847900390625int,
        pow(26, 37) == 22595079562450841747875866761397157432416778821042176int,
        pow(25, 37) == 5293955920339377119177015629247762262821197509765625int,
        pow(26, 38) == 587472068623721885444772535796326093242836249347096576int,
        pow(25, 38) == 132348898008484427979425390731194056570529937744140625int,
        pow(26, 39) == 15274273784216769021564085930704478424313742483024510976int,
        pow(25, 39) == 3308722450212110699485634768279851414263248443603515625int,
        pow(26, 40) == 397131118389635994560666234198316439032157304558637285376int,
        pow(25, 40) == 82718061255302767487140869206996285356581211090087890625int,
        pow(26, 41) == 10325409078130535858577322089156227414836089918524569419776int,
        pow(25, 41) == 2067951531382569187178521730174907133914530277252197265625int,
        pow(26, 42) == 268460636031393932323010374318061912785738337881638804914176int,
        pow(25, 42) == 51698788284564229679463043254372678347863256931304931640625int,
        pow(26, 43) == 6979976536816242240398269732269609732429196784922608927768576int,
        pow(25, 43) == 1292469707114105741986576081359316958696581423282623291015625int,
        pow(26, 44) == 181479389957222298250355013039009853043159116407987832121982976int,
        pow(25, 44) == 32311742677852643549664402033982923967414535582065582275390625int,
        pow(26, 45) == 4718464138887779754509230339014256179122137026607683635171557376int,
        pow(25, 45) == 807793566946316088741610050849573099185363389551639556884765625int,
        pow(26, 46) == 122680067611082273617239988814370660657175562691799774514460491776int,
        pow(25, 46) == 20194839173657902218540251271239327479634084738790988922119140625int,
        pow(26, 47) == 3189681757888139114048239709173637177086564629986794137375972786176int,
        pow(25, 47) == 504870979341447555463506281780983186990852118469774723052978515625int,
{
    lemma_powers_2();
    assert(pow(26, 36) == 26 * pow(26, 35));
    assert(pow(25, 36) == 25 * pow(25, 35));
    assert(pow(26, 37) == 26 * pow(26, 36));
    assert(pow(25, 37) == 25 * pow(25, 36));
    assert(pow(26, 38) == 26 * pow(26, 37));
    assert(pow(25, 38) == 25 * pow(25, 37));
    assert(pow(26, 39) == 26 * pow(26, 38));
    assert(pow(25, 39) == 25 * pow(25, 38));
    assert(pow(26, 40) == 26 * pow(26, 39));
    assert(pow(25, 40) == 25 * pow(25, 39));
    assert(pow(26, 41) == 26 * pow(26, 40));
    assert(pow(25, 41) == 25 * pow(25, 40));
    assert(pow(26, 42) == 26 * pow(26, 41));
    assert(pow(25, 42) == 25 * pow(25, 41));
    assert(pow(26, 43) == 26 * pow(26, 42));
    assert(pow(25, 43) == 25 * pow(25, 42));
    assert(pow(26, 44) == 26 * pow(26, 43));
    assert(pow(25, 44) == 25 * pow(25, 43));
    assert(pow(26, 45) == 26 * pow(26, 44));
    assert(pow(25, 45) == 25 * pow(25, 44));
    assert(pow(26, 46) == 26 * pow(26, 45));
    assert(pow(25, 46) == 25 * pow(25, 45));
    assert(pow(26, 47) == 26 * pow(26, 46));
    assert(pow(25, 47) == 25 * pow(25, 46));
}

/// The powers of 26 and of 25 with exponents from 48 up to 59.
proof fn lemma_powers_4()
    ensures
        pow(26, 48) == 82931725705091616965254232438514566604250680379656647571775292440576int,
        pow(25, 48) == 12621774483536188886587657044524579674771302961744368076324462890625int,
        pow(26, 49) == 2156224868332382041096610043401378731710517689871072836866157603454976int,
        pow(25, 49) == 315544362088404722164691426113114491869282574043609201908111572265625int,
        pow(26, 50) == 56061846576641933068511861128435847024473459936647893758520097689829376int,
        pow(25, 50) == 7888609052210118054117285652827862296732064351090230047702789306640625int,
        pow(26, 51) == 1457608010992690259781308389339332022636309958352845237721522539935563776int,
        pow(25, 51) == 197215226305252951352932141320696557418301608777255751192569732666015625int,
        pow(26, 52) == 37897808285809946754314018122822632588544058917173976180759586038324658176int,
        pow(25, 52) == 4930380657631323783823303533017413935457540219431393779814243316650390625int,
        pow(26, 53) == 985343015431058615612164471193388447302145531846523380699749236996441112576int,
        pow(25, 53) == 123259516440783094595582588325435348386438505485784844495356082916259765625int,
        pow(26, 54) == 25618918401207524005916276251028099629855783828009607898193480161907468926976int,
        pow(25, 54) == 3081487911019577364889564708135883709660962637144621112383902072906494140625int,
        pow(26, 55) == 666091878431395624153823182526730590376250379528249805353030484209594192101376int,
        pow(25, 55) == 77037197775489434122239117703397092741524065928615527809597551822662353515625int,
        pow(26, 56) == 17318388839216286227999402745694995349782509867734494939178792589449448994635776int,
        pow(25, 56) == 1925929944387235853055977942584927318538101648215388195239938795566558837890625int,
        pow(26, 57) == 450278109819623441927984471388069879094345256561096868418648607325685673860530176int,
        pow(25, 57) == 48148248609680896326399448564623182963452541205384704880998469889163970947265625int,
        pow(26, 58) == 11707230855310209490127596256089816856452976670588518578884863790467827520373784576int,
        pow(25, 58) == 1203706215242022408159986214115579574086313530134617622024961747229099273681640625int,
        pow(26, 59) == 304388002238065446743317502658335238267777393435301483051006458552163515529718398976int,
        pow(25, 59) == 30092655381050560203999655352889489352157838253365440550624043680727481842041015625int,
{
    lemma_powers_3();
    assert(pow(26, 48) == 26 * pow(26, 47));
    assert(pow(25, 48) == 25 * pow(25, 47));
    assert(pow(26, 49) == 26 * pow(26, 48));
    assert(pow(25, 49) == 25 * pow(25, 48));
    assert(pow(26, 50) == 26 * pow(26, 49));
    assert(pow(25, 50) == 25 * pow(25, 49));
    assert(pow(26, 51) == 26 * pow(26, 50));
    assert(pow(25, 51) == 25 * pow(25, 50));
    assert(pow(26, 52) == 26 * pow(26, 51));
    assert(pow(25, 52) == 25 * pow(25, 51));
    assert(pow(26, 53) == 26 * pow(26, 52));
    assert(pow(25, 53) == 25 * pow(25, 52));
    assert(pow(26, 54) == 26 * pow(26, 53));
    assert(pow(25, 54) == 25 * pow(25, 53));
    assert(pow(26, 55) == 26 * pow(26, 54));
    assert(pow(25, 55) == 25 * pow(25, 54));
    assert(pow(26, 56) == 26 * pow(26, 55));
    assert(pow(25, 56) == 25 * pow(25, 55));
    assert(pow(26, 57) == 26 * pow(26, 56));
    assert(pow(25, 57) == 25 * pow(25, 56));
    assert(pow(26, 58) == 26 * pow(26, 57));
    assert(pow(25, 58) == 25 * pow(25, 57));
    assert(pow(26, 59) == 26 * pow(26, 58));
    assert(pow(25, 59) == 25 * pow(25, 58));
}

/// The powers of 26 and of 25 with exponents from 60 up to 71.
proof fn lemma_powers_5()
    ensures
        pow(26, 60) == 7914088058189701615326255069116716194962212229317838559326167922356251403772678373376int,
        pow(25, 60) == 752316384526264005099991383822237233803945956334136013765601092018187046051025390625int,
        pow(26, 61) == 205766289512932241998482631797034621069017517962263802542480365981262536498089637707776int,
        pow(25, 61) == 18807909613156600127499784595555930845098648908353400344140027300454676151275634765625int,
        pow(26, 62) == 5349923527336238291960548426722900147794455467018858866104489515512825948950330580402176int,
        pow(25, 62) == 470197740328915003187494614888898271127466222708835008603500682511366903781890869140625int,
        pow(26, 63) == 139098011710742195590974259094795403842655842142490330518716727403333474672708595090456576int,
        pow(25, 63) == 11754943508222875079687365372222456778186655567720875215087517062784172594547271728515625int,
        pow(26, 64) == 3616548304479297085365330736464680499909051895704748593486634912486670341490423472351870976int,
        pow(25, 64) == 293873587705571876992184134305561419454666389193021880377187926569604314863681793212890625int,
        pow(26, 65) == 94030255916461724219498599148081692997635349288323463430652507724653428878751010281148645376int,
        pow(25, 65) == 7346839692639296924804603357639035486366659729825547009429698164240107871592044830322265625int,
        pow(26, 66) == 2444786653828004829706963577850124017938519081496410049196965200840989150847526267309864779776int,
        pow(25, 66) == 183670992315982423120115083940975887159166493245638675235742454106002696789801120758056640625int,
        pow(26, 67) == 63564452999528125572381053024103224466401496118906661279121095221865717922035682950056484274176int,
        pow(25, 67) == 4591774807899560578002877098524397178979162331140966880893561352650067419745028018951416015625int,
        pow(26, 68) == 1652675777987731264881907378626683836126438899091573193257148475768508665972927756701468591128576int,
        pow(25, 68) == 114794370197489014450071927463109929474479058278524172022339033816251685493625700473785400390625int,
        pow(26, 69) == 42969570227681012886929591844293779739287411376380903024685860369981225315296121674238183369342976int,
        pow(25, 69) == 2869859254937225361251798186577748236861976456963104300558475845406292137340642511844635009765625int,
        pow(26, 70) == 1117208825919706335060169387951638273221472695785903478641832369619511858197699163530192767602917376int,
        pow(25, 70) == 71746481373430634031294954664443705921549411424077607513961896135157303433516062796115875244140625int,
        pow(26, 71) == 29047429473912364711564404086742595103758290090433490444687641610107308313140178251785011957675851776int,
        pow(25, 71) == 1793662034335765850782373866611092648038735285601940187849047403378932585837901569902896881103515625int,
{
    lemma_powers_4();
    assert(pow(26, 60) == 26 * pow(26, 59));
    assert(pow(25, 60) == 25 * pow(25, 59));
    assert(pow(26, 61) == 26 * pow(26, 60));
    assert(pow(25, 61) == 25 * pow(25, 60));
    assert(pow(26, 62) == 26 * pow(26, 61));
    assert(pow(25, 62) == 25 * pow(25, 61));
    assert(pow(26, 63) == 26 * pow(26, 62));
    assert(pow(25, 63) == 25 * pow(25, 62));
    assert(pow(26, 64) == 26 * pow(26, 63));
    assert(pow(25, 64) == 25 * pow(25, 63));
    assert(pow(26, 65) == 26 * pow(26, 64));
    assert(pow(25, 65) == 25 * pow(25, 64));
    assert(pow(26, 66) == 26 * pow(26, 65));
    assert(pow(25, 66) == 25 * pow(25, 65));
    assert(pow(26, 67) == 26 * pow(26, 66));
    assert(pow(25, 67) == 25 * pow(25, 66));
    assert(pow(26, 68) == 26 * pow(26, 67));
    assert(pow(25, 68) == 25 * pow(25, 67));
    assert(pow(26, 69) == 26 * pow(26, 68));
    assert(pow(25, 69) == 25 * pow(25, 68));
    assert(pow(26, 70) == 26 * pow(26, 69));
    assert(pow(25, 70) == 25 * pow(25, 69));
    assert(pow(26, 71) == 26 * pow(26, 70));
    assert(pow(25, 71) == 25 * pow(25, 70));
}

/// The powers of 26 and of 25 with exponents from 72 up to 83.
proof fn lemma_powers_6()
    ensures
        pow(26, 72) == 755233166321721482500674506255307472697715542351270751561878681862790016141644634546410310899572146176int,
        pow(25, 72) == 44841550858394146269559346665277316200968382140048504696226185084473314645947539247572422027587890625int,
        pow(26, 73) == 19636062324364758545017537162637994290140604101133039540608845728432540419682760498206668083388875800576int,
        pow(25, 73) == 1121038771459853656738983666631932905024209553501212617405654627111832866148688481189310550689697265625int,
        pow(26, 74) == 510537620433483722170455966228587851543655706629459028055829988939246050911751772953373370168110770814976int,
        pow(25, 74) == 28025969286496341418474591665798322625605238837530315435141365677795821653717212029732763767242431640625int,
        pow(26, 75) == 13273978131270576776431855121943284140135048372365934729451579712420397323705546096787707624370880041189376int,
        pow(25, 75) == 700649232162408535461864791644958065640130970938257885878534141944895541342930300743319094181060791015625int,
        pow(26, 76) == 345123431413034996187228233170525387643511257681514302965741072522930330416344198516480398233642881070923776int,
        pow(25, 76) == 17516230804060213386546619791123951641003274273456447146963353548622388533573257518582977354526519775390625int,
        pow(26, 77) == 8973209216738909900867934062433660078731292699719371877109267885596188590824949161428490354074714907844018176int,
        pow(25, 77) == 437905770101505334663665494778098791025081856836411178674083838715559713339331437964574433863162994384765625int,
        pow(26, 78) == 233303439635211657422566285623275162047013610192703668804840965025500903361448678197140749205942587603944472576int,
        pow(25, 78) == 10947644252537633366591637369452469775627046420910279466852095967888992833483285949114360846579074859619140625int,
        pow(26, 79) == 6065889430515503092986723426205154213222353865010295388925865090663023487397665633125659479354507277702556286976int,
        pow(25, 79) == 273691106313440834164790934236311744390676160522756986671302399197224820837082148727859021164476871490478515625int,
        pow(26, 80) == 157713125193403080417654809081334009543781200490267680112072492357238610672339306461267146463217189220266463461376int,
        pow(25, 80) == 6842277657836020854119773355907793609766904013068924666782559979930620520927053718196475529111921787261962890625int,
        pow(26, 81) == 4100541255028480090859025036114684248138311212746959682913884801288203877480821967992945808043646919726928049995776int,
        pow(25, 81) == 171056941445900521352994333897694840244172600326723116669563999498265513023176342954911888227798044681549072265625int,
        pow(26, 82) == 106614072630740482362334650938981790451596091531420951755761004833493300814501371167816591009134819912900129299890176int,
        pow(25, 82) == 4276423536147513033824858347442371006104315008168077916739099987456637825579408573872797205694951117038726806640625int,
        pow(26, 83) == 2771965888399252541420700924413526551741498379816944745649786125670825821177035650363231366237505317735403361797144576int,
        pow(25, 83) == 106910588403687825845621458686059275152607875204201947918477499686415945639485214346819930142373777925968170166015625int,
{
    lemma_powers_5();
    assert(pow(26, 72) == 26 * pow(26, 71));
    assert(pow(25, 72) == 25 * pow(25, 71));
    assert(pow(26, 73) == 26 * pow(26, 72));
    assert(pow(25, 73) == 25 * pow(25, 72));
    assert(pow(26, 74) == 26 * pow(26, 73));
    assert(pow(25, 74) == 25 * pow(25, 73));
    assert(pow(26, 75) == 26 * pow(26, 74));
    assert(pow(25, 75) == 25 * pow(25, 74));
    assert(pow(26, 76) == 26 * pow(26, 75));
    assert(pow(25, 76) == 25 * pow(25, 75));
    assert(pow(26, 77) == 26 * pow(26, 76));
    assert(pow(25, 77) == 25 * pow(25, 76));
    assert(pow(26, 78) == 26 * pow(26, 77));
    assert(pow(25, 78) == 25 * pow(25, 77));
    assert(pow(26, 79) == 26 * pow(26, 78));
    assert(pow(25, 79) == 25 * pow(25, 78));
    assert(pow(26, 80) == 26 * pow(26, 79));
    assert(pow(25, 80) == 25 * pow(25, 79));
    assert(pow(26, 81) == 26 * pow(26, 80));
    assert(pow(25, 81) == 25 * pow(25, 80));
    assert(pow(26, 82) == 26 * pow(26, 81));
    assert(pow(25, 82) == 25 * pow(25, 81));
    assert(pow(26, 83) == 26 * pow(26, 82));
    assert(pow(25, 83) == 25 * pow(25, 82));
}

/// The powers of 26 and of 25 with exponents from 84 up to 95.
proof fn lemma_powers_7()
    ensures
        pow(26, 84) == 72071113098380566076938224034751690345278957875240563386894439267441471350602926909444015522175138261120487406725758976int,
        pow(25, 84) == 2672764710092195646140536467151481878815196880105048697961937492160398640987130358670498253559344448149204254150390625int,
        pow(26, 85) == 1873848940557894718000393824903543948977252904756254648059255420953478255115676099645544403576553594789132672574869733376int,
        pow(25, 85) == 66819117752304891153513411678787046970379922002626217449048437304009966024678258966762456338983611203730106353759765625int,
        pow(26, 86) == 48720072454505262668010239447492142673408575523662620849540640944790434633007578590784154492990393464517449486946613067776int,
        pow(25, 86) == 1670477943807622278837835291969676174259498050065655436226210932600249150616956474169061408474590280093252658843994140625int,
        pow(26, 87) == 1266721883817136829368266225634795709508622963615228142088056664564551300458197043360388016817750230077453686660611939762176int,
        pow(25, 87) == 41761948595190556970945882299241904356487451251641385905655273315006228765423911854226535211864757002331316471099853515625int,
        pow(26, 88) == 32934768979245557563574921866504688447224197053995931694289473278678333811913123127370088437261505982013795853175910433816576int,
        pow(25, 88) == 1044048714879763924273647057481047608912186281291034647641381832875155719135597796355663380296618925058282911777496337890625int,
        pow(26, 89) == 856303993460384496652947968529121899627829123403894224051526305245636679109741201311622299368799155532358692182573671279230976int,
        pow(25, 89) == 26101217871994098106841176437026190222804657032275866191034545821878892978389944908891584507415473126457072794437408447265625int,
        pow(26, 90) == 22263903829969996912976647181757169390323557208501249825339683936386553656853271234102179783588778043841325996746915453260005376int,
        pow(25, 90) == 652530446799852452671029410925654755570116425806896654775863645546972324459748622722289612685386828161426819860935211181640625int,
        pow(26, 91) == 578861499579219919737392826725686404148412487421032495458831782346050395078185052086656674373308229139874475915419801784760139776int,
        pow(25, 91) == 16313261169996311316775735273141368889252910645172416369396591138674308111493715568057240317134670704035670496523380279541015625int,
        pow(26, 92) == 15050398989059717913172213494867846507858724672946844881929626340997310272032811354253073533706013957636736373800914846403763634176int,
        pow(25, 92) == 407831529249907782919393381828534222231322766129310409234914778466857702787342889201431007928366767600891762413084506988525390625int,
        pow(26, 93) == 391310373715552665742477550866564009204326841496617966930170284865930067072853095210579911876356362898555145718823786006497854488576int,
        pow(25, 93) == 10195788231247694572984834545713355555783069153232760230872869461671442569683572230035775198209169190022294060327112674713134765625int,
        pow(26, 94) == 10174069716604369309304416322530664239312497878912067140184427406514181743894180475475077708785265435362433788689418436168944216702976int,
        pow(25, 94) == 254894705781192364324620863642833888894576728830819005771821736541786064242089305750894379955229229750557351508177816867828369140625int,
        pow(26, 95) == 264525812631713602041914824385797270222124944851713745644795112569368725341248692362352020428416901319423278505924879340392549634277376int,
        pow(25, 95) == 6372367644529809108115521591070847222364418220770475144295543413544651606052232643772359498880730743763933787704445421695709228515625int,
{
    lemma_powers_6();
    assert(pow(26, 84) == 26 * pow(26, 83));
    assert(pow(25, 84) == 25 * pow(25, 83));
    assert(pow(26, 85) == 26 * pow(26, 84));
    assert(pow(25, 85) == 25 * pow(25, 84));
    assert(pow(26, 86) == 26 * pow(26, 85));
    assert(pow(25, 86) == 25 * pow(25, 85));
    assert(pow(26, 87) == 26 * pow(26, 86));
    assert(pow(25, 87) == 25 * pow(25, 86));
    assert(pow(26, 88) == 26 * pow(26, 87));
    assert(pow(25, 88) == 25 * pow(25, 87));
    assert(pow(26, 89) == 26 * pow(26, 88));
    assert(pow(25, 89) == 25 * pow(25, 88));
    assert(pow(26, 90) == 26 * pow(26, 89));
    assert(pow(25, 90) == 25 * pow(25, 89));
    assert(pow(26, 91) == 26 * pow(26, 90));
    assert(pow(25, 91) == 25 * pow(25, 90));
    assert(pow(26, 92) == 26 * pow(26, 91));
    assert(pow(25, 92) == 25 * pow(25, 91));
    assert(pow(26, 93) == 26 * pow(26, 92));
    assert(pow(25, 93) == 25 * pow(25, 92));
    assert(pow(26, 94) == 26 * pow(26, 93));
    assert(pow(25, 94) == 25 * pow(25, 93));
    assert(pow(26, 95) == 26 * pow(26, 94));
    assert(pow(25, 95) == 25 * pow(25, 94));
}

/// The powers of 26 and of 25 with exponents from 96 up to 107.
proof fn lemma_powers_8()
    ensures
        pow(26, 96) == 6877671128424553653089785434030729025775248566144557386764672926803586858872466001421152531138839434305005241154046862850206290491211776int,
        pow(25, 96) == 159309191113245227702888039776771180559110455519261878607388585338616290151305816094308987472018268594098344692611135542392730712890625int,
        pow(26, 97) == 178819449339038394980334421284798954670156462719758492055881496096893258330684116036949965809609825291930136270005218434105363552771506176int,
        pow(25, 97) == 3982729777831130692572200994419279513977761387981546965184714633465407253782645402357724686800456714852458617315278388559818267822265625int,
        pow(26, 98) == 4649305682814998269488694953404772821424068030713720793452918898519224716597787016960699111049855457590183543020135679286739452372059160576int,
        pow(25, 98) == 99568244445778267314305024860481987849444034699538674129617865836635181344566135058943117170011417871311465432881959713995456695556640625int,
        pow(26, 99) == 120881947753189955006706068788524093357025768798556740629775891361499842631542462440978176887296241897344772118523527661455225761673538174976int,
        pow(25, 99) == 2489206111144456682857625621512049696236100867488466853240446645915879533614153376473577929250285446782786635822048992849886417388916015625int,
        pow(26, 100) == 3142930641582938830174357788501626427282669988762475256374173175398995908420104023465432599069702289330964075081611719197835869803511992549376int,
        pow(25, 100) == 62230152778611417071440640537801242405902521687211671331011166147896988340353834411839448231257136169569665895551224821247160434722900390625int,
        pow(26, 101) == 81716196681156409584533302501042287109349419707824356665728502560373893618922704610101247575812259522605065952121904699143732614891311806283776int,
        pow(25, 101) == 1555753819465285426786016013445031060147563042180291783275279153697424708508845860295986205781428404239241647388780620531179010868072509765625int,
        pow(26, 102) == 2124621113710066649197865865027099464843084912403433273308941066569721234091990319862632436971118747587731714755169522177737047987174106963378176int,
        pow(25, 102) == 38893845486632135669650400336125776503689076054507294581881978842435617712721146507399655144535710105981041184719515513279475271701812744140625int,
        pow(26, 103) == 55240148956461732879144512490704586085920207722489265106032467730812752086391748316428443361249087437281024583634407576621163247666526781047832576int,
        pow(25, 103) == 972346137165803391741260008403144412592226901362682364547049471060890442818028662684991378613392752649526029617987887831986881792545318603515625int,
        pow(26, 104) == 1436243872868005054857757324758319238233925400784720892756844161001131554246185456227139527392476273369306639174494596992150244439329696307243646976int,
        pow(25, 104) == 24308653429145084793531500210078610314805672534067059113676236776522261070450716567124784465334818816238150740449697195799672044813632965087890625int,
        pow(26, 105) == 37342340694568131426301690443716300194082060420402743211677948186029420410400821861905627712204383107601972618536859521795906355422572103988334821376int,
        pow(25, 105) == 607716335728627119838287505251965257870141813351676477841905919413056526761267914178119611633370470405953768511242429894991801120340824127197265625int,
        pow(26, 106) == 970900858058771417083843951536623805046133570930471323503626652836764930670421368409546320517313960797651288081958347566693565240986874703696705355776int,
        pow(25, 106) == 15192908393215677995957187631299131446753545333791911946047647985326413169031697854452990290834261760148844212781060747374795028008520603179931640625int,
        pow(26, 107) == 25243422309528056844179942739952218931199472844192254411094292973755888197430955578648204333450162980738933490130917036734032696265658742296114339250176int,
        pow(25, 107) == 379822709830391949898929690782478286168838633344797798651191199633160329225792446361324757270856544003721105319526518684369875700213015079498291015625int,
{
    lemma_powers_7();
    assert(pow(26, 96) == 26 * pow(26, 95));
    assert(pow(25, 96) == 25 * pow(25, 95));
    assert(pow(26, 97) == 26 * pow(26, 96));
    assert(pow(25, 97) == 25 * pow(25, 96));
    assert(pow(26, 98) == 26 * pow(26, 97));
    assert(pow(25, 98) == 25 * pow(25, 97));
    assert(pow(26, 99) == 26 * pow(26, 98));
    assert(pow(25, 99) == 25 * pow(25, 98));
    assert(pow(26, 100) == 26 * pow(26, 99));
    assert(pow(25, 100) == 25 * pow(25, 99));
    assert(pow(26, 101) == 26 * pow(26, 100));
    assert(pow(25, 101) == 25 * pow(25, 100));
    assert(pow(26, 102) == 26 * pow(26, 101));
    assert(pow(25, 102) == 25 * pow(25, 101));
    assert(pow(26, 103) == 26 * pow(26, 102));
    assert(pow(25, 103) == 25 * pow(25, 102));
    assert(pow(26, 104) == 26 * pow(26, 103));
    assert(pow(25, 104) == 25 * pow(25, 103));
    assert(pow(26, 105) == 26 * pow(26, 104));
    assert(pow(25, 105) == 25 * pow(25, 104));
    assert(pow(26, 106) == 26 * pow(26, 105));
    assert(pow(25, 106) == 25 * pow(25, 105));
    assert(pow(26, 107) == 26 * pow(26, 106));
    assert(pow(25, 107) == 25 * pow(25, 106));
}

/// The powers of 26 and of 25 with exponents from 108 up to 119.
proof fn lemma_powers_9()
    ensures
        pow(26, 108) == 656328980047729477948678511238757692211186293948998614688451617317653093133204845044853312669704237499212270743403842955084850102907127299698972820504576int,
        pow(25, 108) == 9495567745759798747473242269561957154220965833619944966279779990829008230644811159033118931771413600093027632988162967109246892505325376987457275390625int,
        pow(26, 109) == 17064553481240966426665641292207699997490843642673963981899742050258980421463325971166186129412310174979519039328499916832206102675585309792173293333118976int,
        pow(25, 109) == 237389193643994968686831056739048928855524145840498624156994499770725205766120278975827973294285340002325690824704074177731172312633134424686431884765625int,
        pow(26, 110) == 443678390512265127093306673597400199934761934709523063529393293306733490958046475250320839364720064549467495022540997837637358669565218054596505626661093376int,
        pow(25, 110) == 5934729841099874217170776418476223221388103646012465603924862494268130144153006974395699332357133500058142270617601854443279307815828360617160797119140625int,
        pow(26, 111) == 11535638153318893304425973513532405198303810302447599651764225625975070764909208356508341823482721678286154870586065943778571325408695669419509146293188427776int,
        pow(25, 111) == 148368246027496855429269410461905580534702591150311640098121562356703253603825174359892483308928337501453556765440046361081982695395709015429019927978515625int,
        pow(26, 112) == 299926591986291225915075311351842535155899067863637590945869866275351839887639417269216887410550763635440026635237714538242854460626087404907237803622899122176int,
        pow(25, 112) == 3709206150687421385731735261547639513367564778757791002453039058917581340095629358997312082723208437536338919136001159027049567384892725385725498199462890625int,
        pow(26, 113) == 7798091391643571873791958095147905914053375764454577364592616523159147837078624848999639072674319854521440692516180577994314215976278272527588182894195377176576int,
        pow(25, 113) == 92730153767185534643293381538690987834189119468944775061325976472939533502390733974932802068080210938408472978400028975676239184622318134643137454986572265625int,
        pow(26, 114) == 202750376182732868718590910473845553765387769875819011479408029602137843764044246073990615889532316217557458005420695027852169615383235085717292755249079806590976int,
        pow(25, 114) == 2318253844179638366082334538467274695854727986723619376533149411823488337559768349373320051702005273460211824460000724391905979615557953366078436374664306640625int,
        pow(26, 115) == 5271509780751054586683363672319984397900082016771294298464608769655583937865150397923756013127840221656493908140938070724156409999964112228649611636476074971365376int,
        pow(25, 115) == 57956346104490959152058363461681867396368199668090484413328735295587208438994208734333001292550131836505295611500018109797649490388948834151960909366607666015625int,
        pow(26, 116) == 137059254299527419253767455480319594345402132436053651760079828011045182384493910346017656341323845763068841611664389838828066659999066917944889902548377949255499776int,
        pow(25, 116) == 1448908652612273978801459086542046684909204991702262110333218382389680210974855218358325032313753295912632390287500452744941237259723720853799022734165191650390625int,
        pow(26, 117) == 3563540611787712900597953842488309452980455443337394945762075528287174741996841668996459064874419989839789881903274135809529733159975739866567137466257826680642994176int,
        pow(25, 117) == 36222716315306849470036477163551167122730124792556552758330459559742005274371380458958125807843832397815809757187511318623530931493093021344975568354129791259765625int,
        pow(26, 118) == 92652055906480535415546799904696045777491841526772268589813963735466543291917883393907935686734919735834536929485127531047773062159369236530745574122703493696717848576int,
        pow(25, 118) == 905567907882671236750911929088779178068253119813913818958261488993550131859284511473953145196095809945395243929687782965588273287327325533624389208853244781494140625int,
        pow(26, 119) == 2408953453568493920804216797522097190214787879696078983335163057122130125589864968241606327855107913131697960166613315807242099616143600149799384927190290836114664062976int,
        pow(25, 119) == 22639197697066780918772798227219479451706327995347845473956537224838753296482112786848828629902395248634881098242194574139706832183183138340609730221331119537353515625int,
{
    lemma_powers_8();
    assert(pow(26, 108) == 26 * pow(26, 107));
    assert(pow(25, 108) == 25 * pow(25, 107));
    assert(pow(26, 109) == 26 * pow(26, 108));
    assert(pow(25, 109) == 25 * pow(25, 108));
    assert(pow(26, 110) == 26 * pow(26, 109));
    assert(pow(25, 110) == 25 * pow(25, 109));
    assert(pow(26, 111) == 26 * pow(26, 110));
    assert(pow(25, 111) == 25 * pow(25, 110));
    assert(pow(26, 112) == 26 * pow(26, 111));
    assert(pow(25, 112) == 25 * pow(25, 111));
    assert(pow(26, 113) == 26 * pow(26, 112));
    assert(pow(25, 113) == 25 * pow(25, 112));
    assert(pow(26, 114) == 26 * pow(26, 113));
    assert(pow(25, 114) == 25 * pow(25, 113));
    assert(pow(26, 115) == 26 * pow(26, 114));
    assert(pow(25, 115) == 25 * pow(25, 114));
    assert(pow(26, 116) == 26 * pow(26, 115));
    assert(pow(25, 116) == 25 * pow(25, 115));
    assert(pow(26, 117) == 26 * pow(26, 116));
    assert(pow(25, 117) == 25 * pow(25, 116));
    assert(pow(26, 118) == 26 * pow(26, 117));
    assert(pow(25, 118) == 25 * pow(25, 117));
    assert(pow(26, 119) == 26 * pow(26, 118));
    assert(pow(25, 119) == 25 * pow(25, 118));
}

/// Both limits for a month from 0 up to 11: first the one on
/// authorizations, then the one on bytes.
fn limits_of_months_0(month: u32) -> (limits: (usize, usize))
    requires
        0 <= month < 12,
    ensures
        limits.0 == 42800 * pow(26, month as nat) / pow(25, month as nat),
        limits.1 == 8388608 * pow(26, month as nat) / pow(25, month as nat),
{
    proof {
        lemma_powers_0();
    }
    if month == 0 {
        assert(42800 * 1 / 1 == 42800);
        assert(8388608 * 1 / 1 == 8388608);
        return (42800, 8388608);
    }
    if month == 1 {
        assert(42800 * 26 / 25 == 44512);
        assert(8388608 * 26 / 25 == 8724152);
        return (44512, 8724152);
    }
    if month == 2 {
        assert(42800 * 676 / 625 == 46292);
        assert(8388608 * 676 / 625 == 9073118);
        return (46292, 9073118);
    }
    if month == 3 {
        assert(42800 * 17576 / 15625 == 48144);
        assert(8388608 * 17576 / 15625 == 9436043);
        return (48144, 9436043);
    }
    if month == 4 {
        assert(42800 * 456976 / 390625 == 50069);
        assert(8388608 * 456976 / 390625 == 9813484);
        return (50069, 9813484);
    }
    if month == 5 {
        assert(42800 * 11881376 / 9765625 == 52072);
        assert(8388608 * 11881376 / 9765625 == 10206024);
        return (52072, 10206024);
    }
    if month == 6 {
        assert(42800 * 308915776 / 244140625 == 54155);
        assert(8388608 * 308915776 / 244140625 == 10614265);
        return (54155, 10614265);
    }
    if month == 7 {
        assert(42800 * 8031810176int / 6103515625int == 56321);
        assert(8388608 * 8031810176int / 6103515625int == 11038835);
        return (56321, 11038835);
    }
    if month == 8 {
        assert(42800 * 208827064576int / 152587890625int == 58574);
        assert(8388608 * 208827064576int / 152587890625int == 11480389);
        return (58574, 11480389);
    }
    if month == 9 {
        assert(42800 * 5429503678976int / 3814697265625int == 60917);
        assert(8388608 * 5429503678976int / 3814697265625int == 11939604);
        return (60917, 11939604);
    }
    if month == 10 {
        assert(42800 * 141167095653376int / 95367431640625int == 63354);
        assert(8388608 * 141167095653376int / 95367431640625int == 12417189);
        return (63354, 12417189);
    }
    if month == 11 {
        assert(42800 * 3670344486987776int / 2384185791015625int == 65888);
        assert(8388608 * 3670344486987776int / 2384185791015625int == 12913876);
        return (65888, 12913876);
    }
    (65888, 12913876)
}

/// Both limits for a month from 12 up to 23: first the one on
/// authorizations, then the one on bytes.
fn limits_of_months_1(month: u32) -> (limits: (usize, usize))
    requires
        12 <= month < 24,
    ensures
        limits.0 == 42800 * pow(26, month as nat) / pow(25, month as nat),
        limits.1 == 8388608 * pow(26, month as nat) / pow(25, month as nat),
{
    proof {
        lemma_powers_1();
    }
    if month == 12 {
        assert(42800 * 95428956661682176int / 59604644775390625int == 68524);
        assert(8388608 * 95428956661682176int / 59604644775390625int == 13430431);
        return (68524, 13430431);
    }
    if month == 13 {
        assert(42800 * 2481152873203736576int / 1490116119384765625int == 71265);
        assert(8388608 * 2481152873203736576int / 1490116119384765625int == 13967648);
        return (71265, 13967648);
    }
    if month == 14 {
        assert(42800 * 64509974703297150976int / 37252902984619140625int == 74115);
        assert(8388608 * 64509974703297150976int / 37252902984619140625int == 14526354);
        return (74115, 14526354);
    }
    if month == 15 {
        assert(42800 * 1677259342285725925376int / 931322574615478515625int == 77080);
        assert(8388608 * 1677259342285725925376int / 931322574615478515625int == 15107409);
        return (77080, 15107409);
    }
    if month == 16 {
        assert(42800 * 43608742899428874059776int / 23283064365386962890625int == 80163);
        assert(8388608 * 43608742899428874059776int / 23283064365386962890625int == 15711705);
        return (80163, 15711705);
    }
    if month == 17 {
        assert(42800 * 1133827315385150725554176int / 582076609134674072265625int == 83370);
        assert(8388608 * 1133827315385150725554176int / 582076609134674072265625int == 16340173);
        return (83370, 16340173);
    }
    if month == 18 {
        assert(42800 * 29479510200013918864408576int / 14551915228366851806640625int == 86704);
        assert(8388608 * 29479510200013918864408576int / 14551915228366851806640625int == 16993780);
        return (86704, 16993780);
    }
    if month == 19 {
        assert(42800 * 766467265200361890474622976int / 363797880709171295166015625int == 90173);
        assert(8388608 * 766467265200361890474622976int / 363797880709171295166015625int == 17673531);
        return (90173, 17673531);
    }
    if month == 20 {
        assert(42800 * 19928148895209409152340197376int / 9094947017729282379150390625int == 93780);
        assert(8388608 * 19928148895209409152340197376int / 9094947017729282379150390625int == 18380473);
        return (93780, 18380473);
    }
    if month == 21 {
        assert(42800 * 518131871275444637960845131776int / 227373675443232059478759765625int == 97531);
        assert(8388608 * 518131871275444637960845131776int / 227373675443232059478759765625int == 19115692);
        return (97531, 19115692);
    }
    if month == 22 {
        assert(42800 * 13471428653161560586981973426176int / 5684341886080801486968994140625int == 101432);
        assert(8388608 * 13471428653161560586981973426176int / 5684341886080801486968994140625int == 19880319);
        return (101432, 19880319);
    }
    if month == 23 {
        assert(42800 * 350257144982200575261531309080576int / 142108547152020037174224853515625int == 105489);
        assert(8388608 * 350257144982200575261531309080576int / 142108547152020037174224853515625int == 20675532);
        return (105489, 20675532);
    }
    (105489, 20675532)
}

/// Both limits for a month from 24 up to 35: first the one on
/// authorizations, then the one on bytes.
fn limits_of_months_2(month: u32) -> (limits: (usize, usize))
    requires
        24 <= month < 36,
    ensures
        limits.0 == 42800 * pow(26, month as nat) / pow(25, month as nat),
        limits.1 == 8388608 * pow(26, month as nat) / pow(25, month as nat),
{
    proof {
        lemma_powers_2();
    }
    if month == 24 {
        assert(42800 * 9106685769537214956799814036094976int / 3552713678800500929355621337890625int == 109709);
        assert(8388608 * 9106685769537214956799814036094976int / 3552713678800500929355621337890625int == 21502553);
        return (109709, 21502553);
    }
    if month == 25 {
        assert(42800 * 236773830007967588876795164938469376int / 88817841970012523233890533447265625int == 114097);
        assert(8388608 * 236773830007967588876795164938469376int / 88817841970012523233890533447265625int == 22362655);
        return (114097, 22362655);
    }
    if month == 26 {
        assert(42800 * 6156119580207157310796674288400203776int / 2220446049250313080847263336181640625int == 118661);
        assert(8388608 * 6156119580207157310796674288400203776int / 2220446049250313080847263336181640625int == 23257162);
        return (118661, 23257162);
    }
    if month == 27 {
        assert(42800 * 160059109085386090080713531498405298176int / 55511151231257827021181583404541015625int == 123408);
        assert(8388608 * 160059109085386090080713531498405298176int / 55511151231257827021181583404541015625int == 24187448);
        return (123408, 24187448);
    }
    if month == 28 {
        assert(42800 * 4161536836220038342098551818958537752576int / 1387778780781445675529539585113525390625int == 128344);
        assert(8388608 * 4161536836220038342098551818958537752576int / 1387778780781445675529539585113525390625int == 25154946);
        return (128344, 25154946);
    }
    if month == 29 {
        assert(42800 * 108199957741720996894562347292921981566976int / 34694469519536141888238489627838134765625int == 133478);
        assert(8388608 * 108199957741720996894562347292921981566976int / 34694469519536141888238489627838134765625int == 26161144);
        return (133478, 26161144);
    }
    if month == 30 {
        assert(42800 * 2813198901284745919258621029615971520741376int / 867361737988403547205962240695953369140625int == 138817);
        assert(8388608 * 2813198901284745919258621029615971520741376int / 867361737988403547205962240695953369140625int == 27207590);
        return (138817, 27207590);
    }
    if month == 31 {
        assert(42800 * 73143171433403393900724146770015259539275776int / 21684043449710088680149056017398834228515625int == 144370);
        assert(8388608 * 73143171433403393900724146770015259539275776int / 21684043449710088680149056017398834228515625int == 28295893);
        return (144370, 28295893);
    }
    if month == 32 {
        assert(42800 * 1901722457268488241418827816020396748021170176int / 542101086242752217003726400434970855712890625int == 150144);
        assert(8388608 * 1901722457268488241418827816020396748021170176int / 542101086242752217003726400434970855712890625int == 29427729);
        return (150144, 29427729);
    }
    if month == 33 {
        assert(42800 * 49444783888980694276889523216530315448550424576int / 13552527156068805425093160010874271392822265625int == 156150);
        assert(8388608 * 49444783888980694276889523216530315448550424576int / 13552527156068805425093160010874271392822265625int == 30604838);
        return (156150, 30604838);
    }
    if month == 34 {
        assert(42800 * 1285564381113498051199127603629788201662311038976int / 338813178901720135627329000271856784820556640625int == 162396);
        assert(8388608 * 1285564381113498051199127603629788201662311038976int / 338813178901720135627329000271856784820556640625int == 31829032);
        return (162396, 31829032);
    }
    if month == 35 {
        assert(42800 * 33424673908950949331177317694374493243220087013376int / 8470329472543003390683225006796419620513916015625int == 168892);
        assert(8388608 * 33424673908950949331177317694374493243220087013376int / 8470329472543003390683225006796419620513916015625int == 33102193);
        return (168892, 33102193);
    }
    (168892, 33102193)
}

/// Both limits for a month from 36 up to 47: first the one on
/// authorizations, then the one on bytes.
fn limits_of_months_3(month: u32) -> (limits: (usize, usize))
    requires
        36 <= month < 48,
    ensures
        limits.0 == 42800 * pow(26, month as nat) / pow(25, month as nat),
        limits.1 == 8388608 * pow(26, month as nat) / pow(25, month as nat),
{
    proof {
        lemma_powers_3();
    }
    if month == 36 {
        assert(42800 * 869041521632724682610610260053736824323722262347776int / 211758236813575084767080625169910490512847900390625int == 175648);
        assert(8388608 * 869041521632724682610610260053736824323722262347776int / 211758236813575084767080625169910490512847900390625int == 34426281);
        return (175648, 34426281);
    }
    if month == 37 {
        assert(42800 * 22595079562450841747875866761397157432416778821042176int / 5293955920339377119177015629247762262821197509765625int == 182674);
        assert(8388608 * 22595079562450841747875866761397157432416778821042176int / 5293955920339377119177015629247762262821197509765625int == 35803332);
        return (182674, 35803332);
    }
    if month == 38 {
        assert(42800 * 587472068623721885444772535796326093242836249347096576int / 132348898008484427979425390731194056570529937744140625int == 189981);
        assert(8388608 * 587472068623721885444772535796326093242836249347096576int / 132348898008484427979425390731194056570529937744140625int == 37235466);
        return (189981, 37235466);
    }
    if month == 39 {
        assert(42800 * 15274273784216769021564085930704478424313742483024510976int / 3308722450212110699485634768279851414263248443603515625int == 197580);
        assert(8388608 * 15274273784216769021564085930704478424313742483024510976int / 3308722450212110699485634768279851414263248443603515625int == 38724884);
        return (197580, 38724884);
    }
    if month == 40 {
        assert(42800 * 397131118389635994560666234198316439032157304558637285376int / 82718061255302767487140869206996285356581211090087890625int == 205483);
        assert(8388608 * 397131118389635994560666234198316439032157304558637285376int / 82718061255302767487140869206996285356581211090087890625int == 40273880);
        return (205483, 40273880);
    }
    if month == 41 {
        assert(42800 * 10325409078130535858577322089156227414836089918524569419776int / 2067951531382569187178521730174907133914530277252197265625int == 213703);
        assert(8388608 * 10325409078130535858577322089156227414836089918524569419776int / 2067951531382569187178521730174907133914530277252197265625int == 41884835);
        return (213703, 41884835);
    }
    if month == 42 {
        assert(42800 * 268460636031393932323010374318061912785738337881638804914176int / 51698788284564229679463043254372678347863256931304931640625int == 222251);
        assert(8388608 * 268460636031393932323010374318061912785738337881638804914176int / 51698788284564229679463043254372678347863256931304931640625int == 43560228);
        return (222251, 43560228);
    }
    if month == 43 {
        assert(42800 * 6979976536816242240398269732269609732429196784922608927768576int / 1292469707114105741986576081359316958696581423282623291015625int == 231141);
        assert(8388608 * 6979976536816242240398269732269609732429196784922608927768576int / 1292469707114105741986576081359316958696581423282623291015625int == 45302637);
        return (231141, 45302637);
    }
    if month == 44 {
        assert(42800 * 181479389957222298250355013039009853043159116407987832121982976int / 32311742677852643549664402033982923967414535582065582275390625int == 240386);
        assert(8388608 * 181479389957222298250355013039009853043159116407987832121982976int / 32311742677852643549664402033982923967414535582065582275390625int == 47114743);
        return (240386, 47114743);
    }
    if month == 45 {
        assert(42800 * 4718464138887779754509230339014256179122137026607683635171557376int / 807793566946316088741610050849573099185363389551639556884765625int == 250002);
        assert(8388608 * 4718464138887779754509230339014256179122137026607683635171557376int / 807793566946316088741610050849573099185363389551639556884765625int == 48999333);
        return (250002, 48999333);
    }
    if month == 46 {
        assert(42800 * 122680067611082273617239988814370660657175562691799774514460491776int / 20194839173657902218540251271239327479634084738790988922119140625int == 260002);
        assert(8388608 * 122680067611082273617239988814370660657175562691799774514460491776int / 20194839173657902218540251271239327479634084738790988922119140625int == 50959306);
        return (260002, 50959306);
    }
    if month == 47 {
        assert(42800 * 3189681757888139114048239709173637177086564629986794137375972786176int / 504870979341447555463506281780983186990852118469774723052978515625int == 270402);
        assert(8388608 * 3189681757888139114048239709173637177086564629986794137375972786176int / 504870979341447555463506281780983186990852118469774723052978515625int == 52997678);
        return (270402, 52997678);
    }
    (270402, 52997678)
}

/// Both limits for a month from 48 up to 59: first the one on
/// authorizations, then the one on bytes.
fn limits_of_months_4(month: u32) -> (limits: (usize, usize))
    requires
        48 <= month < 60,
    ensures
        limits.0 == 42800 * pow(26, month as nat) / pow(25, month as nat),
        limits.1 == 8388608 * pow(26, month as nat) / pow(25, month as nat),
{
    proof {
        lemma_powers_4();
    }
    if month == 48 {
        assert(42800 * 82931725705091616965254232438514566604250680379656647571775292440576int / 12621774483536188886587657044524579674771302961744368076324462890625int == 281218);
        assert(8388608 * 82931725705091616965254232438514566604250680379656647571775292440576int / 12621774483536188886587657044524579674771302961744368076324462890625int == 55117585);
        return (281218, 55117585);
    }
    if month == 49 {
        assert(42800 * 2156224868332382041096610043401378731710517689871072836866157603454976int / 315544362088404722164691426113114491869282574043609201908111572265625int == 292467);
        assert(8388608 * 2156224868332382041096610043401378731710517689871072836866157603454976int / 315544362088404722164691426113114491869282574043609201908111572265625int == 57322289);
        return (292467, 57322289);
    }
    if month == 50 {
        assert(42800 * 56061846576641933068511861128435847024473459936647893758520097689829376int / 7888609052210118054117285652827862296732064351090230047702789306640625int == 304166);
        assert(8388608 * 56061846576641933068511861128435847024473459936647893758520097689829376int / 7888609052210118054117285652827862296732064351090230047702789306640625int == 59615180);
        return (304166, 59615180);
    }
    if month == 51 {
        assert(42800 * 1457608010992690259781308389339332022636309958352845237721522539935563776int / 197215226305252951352932141320696557418301608777255751192569732666015625int == 316332);
        assert(8388608 * 1457608010992690259781308389339332022636309958352845237721522539935563776int / 197215226305252951352932141320696557418301608777255751192569732666015625int == 61999788);
        return (316332, 61999788);
    }
    if month == 52 {
        assert(42800 * 37897808285809946754314018122822632588544058917173976180759586038324658176int / 4930380657631323783823303533017413935457540219431393779814243316650390625int == 328985);
        assert(8388608 * 37897808285809946754314018122822632588544058917173976180759586038324658176int / 4930380657631323783823303533017413935457540219431393779814243316650390625int == 64479779);
        return (328985, 64479779);
    }
    if month == 53 {
        assert(42800 * 985343015431058615612164471193388447302145531846523380699749236996441112576int / 123259516440783094595582588325435348386438505485784844495356082916259765625int == 342145);
        assert(8388608 * 985343015431058615612164471193388447302145531846523380699749236996441112576int / 123259516440783094595582588325435348386438505485784844495356082916259765625int == 67058970);
        return (342145, 67058970);
    }
    if month == 54 {
        assert(42800 * 25618918401207524005916276251028099629855783828009607898193480161907468926976int / 3081487911019577364889564708135883709660962637144621112383902072906494140625int == 355831);
        assert(8388608 * 25618918401207524005916276251028099629855783828009607898193480161907468926976int / 3081487911019577364889564708135883709660962637144621112383902072906494140625int == 69741329);
        return (355831, 69741329);
    }
    if month == 55 {
        assert(42800 * 666091878431395624153823182526730590376250379528249805353030484209594192101376int / 77037197775489434122239117703397092741524065928615527809597551822662353515625int == 370064);
        assert(8388608 * 666091878431395624153823182526730590376250379528249805353030484209594192101376int / 77037197775489434122239117703397092741524065928615527809597551822662353515625int == 72530982);
        return (370064, 72530982);
    }
    if month == 56 {
        assert(42800 * 17318388839216286227999402745694995349782509867734494939178792589449448994635776int / 1925929944387235853055977942584927318538101648215388195239938795566558837890625int == 384867);
        assert(8388608 * 17318388839216286227999402745694995349782509867734494939178792589449448994635776int / 1925929944387235853055977942584927318538101648215388195239938795566558837890625int == 75432222);
        return (384867, 75432222);
    }
    if month == 57 {
        assert(42800 * 450278109819623441927984471388069879094345256561096868418648607325685673860530176int / 48148248609680896326399448564623182963452541205384704880998469889163970947265625int == 400261);
        assert(8388608 * 450278109819623441927984471388069879094345256561096868418648607325685673860530176int / 48148248609680896326399448564623182963452541205384704880998469889163970947265625int == 78449510);
        return (400261, 78449510);
    }
    if month == 58 {
        assert(42800 * 11707230855310209490127596256089816856452976670588518578884863790467827520373784576int / 1203706215242022408159986214115579574086313530134617622024961747229099273681640625int == 416272);
        assert(8388608 * 11707230855310209490127596256089816856452976670588518578884863790467827520373784576int / 1203706215242022408159986214115579574086313530134617622024961747229099273681640625int == 81587491);
        return (416272, 81587491);
    }
    if month == 59 {
        assert(42800 * 304388002238065446743317502658335238267777393435301483051006458552163515529718398976int / 30092655381050560203999655352889489352157838253365440550624043680727481842041015625int == 432923);
        assert(8388608 * 304388002238065446743317502658335238267777393435301483051006458552163515529718398976int / 30092655381050560203999655352889489352157838253365440550624043680727481842041015625int == 84850990);
        return (432923, 84850990);
    }
    (432923, 84850990)
}

/// Both limits for a month from 60 up to 71: first the one on
/// authorizations, then the one on bytes.
fn limits_of_months_5(month: u32) -> (limits: (usize, usize))
    requires
        60 <= month < 72,
    ensures
        limits.0 == 42800 * pow(26, month as nat) / pow(25, month as nat),
        limits.1 == 8388608 * pow(26, month as nat) / pow(25, month as nat),
{
    proof {
        lemma_powers_5();
    }
    if month == 60 {
        assert(42800 * 7914088058189701615326255069116716194962212229317838559326167922356251403772678373376int / 752316384526264005099991383822237233803945956334136013765601092018187046051025390625int == 450240);
        assert(8388608 * 7914088058189701615326255069116716194962212229317838559326167922356251403772678373376int / 752316384526264005099991383822237233803945956334136013765601092018187046051025390625int == 88245030);
        return (450240, 88245030);
    }
    if month == 61 {
        assert(42800 * 205766289512932241998482631797034621069017517962263802542480365981262536498089637707776int / 18807909613156600127499784595555930845098648908353400344140027300454676151275634765625int == 468249);
        assert(8388608 * 205766289512932241998482631797034621069017517962263802542480365981262536498089637707776int / 18807909613156600127499784595555930845098648908353400344140027300454676151275634765625int == 91774831);
        return (468249, 91774831);
    }
    if month == 62 {
        assert(42800 * 5349923527336238291960548426722900147794455467018858866104489515512825948950330580402176int / 470197740328915003187494614888898271127466222708835008603500682511366903781890869140625int == 486979);
        assert(8388608 * 5349923527336238291960548426722900147794455467018858866104489515512825948950330580402176int / 470197740328915003187494614888898271127466222708835008603500682511366903781890869140625int == 95445825);
        return (486979, 95445825);
    }
    if month == 63 {
        assert(42800 * 139098011710742195590974259094795403842655842142490330518716727403333474672708595090456576int / 11754943508222875079687365372222456778186655567720875215087517062784172594547271728515625int == 506458);
        assert(8388608 * 139098011710742195590974259094795403842655842142490330518716727403333474672708595090456576int / 11754943508222875079687365372222456778186655567720875215087517062784172594547271728515625int == 99263658);
        return (506458, 99263658);
    }
    if month == 64 {
        assert(42800 * 3616548304479297085365330736464680499909051895704748593486634912486670341490423472351870976int / 293873587705571876992184134305561419454666389193021880377187926569604314863681793212890625int == 526717);
        assert(8388608 * 3616548304479297085365330736464680499909051895704748593486634912486670341490423472351870976int / 293873587705571876992184134305561419454666389193021880377187926569604314863681793212890625int == 103234204);
        return (526717, 103234204);
    }
    if month == 65 {
        assert(42800 * 94030255916461724219498599148081692997635349288323463430652507724653428878751010281148645376int / 7346839692639296924804603357639035486366659729825547009429698164240107871592044830322265625int == 547785);
        assert(8388608 * 94030255916461724219498599148081692997635349288323463430652507724653428878751010281148645376int / 7346839692639296924804603357639035486366659729825547009429698164240107871592044830322265625int == 107363572);
        return (547785, 107363572);
    }
    if month == 66 {
        assert(42800 * 2444786653828004829706963577850124017938519081496410049196965200840989150847526267309864779776int / 183670992315982423120115083940975887159166493245638675235742454106002696789801120758056640625int == 569697);
        assert(8388608 * 2444786653828004829706963577850124017938519081496410049196965200840989150847526267309864779776int / 183670992315982423120115083940975887159166493245638675235742454106002696789801120758056640625int == 111658115);
        return (569697, 111658115);
    }
    if month == 67 {
        assert(42800 * 63564452999528125572381053024103224466401496118906661279121095221865717922035682950056484274176int / 4591774807899560578002877098524397178979162331140966880893561352650067419745028018951416015625int == 592485);
        assert(8388608 * 63564452999528125572381053024103224466401496118906661279121095221865717922035682950056484274176int / 4591774807899560578002877098524397178979162331140966880893561352650067419745028018951416015625int == 116124440);
        return (592485, 116124440);
    }
    if month == 68 {
        assert(42800 * 1652675777987731264881907378626683836126438899091573193257148475768508665972927756701468591128576int / 114794370197489014450071927463109929474479058278524172022339033816251685493625700473785400390625int == 616184);
        assert(8388608 * 1652675777987731264881907378626683836126438899091573193257148475768508665972927756701468591128576int / 114794370197489014450071927463109929474479058278524172022339033816251685493625700473785400390625int == 120769417);
        return (616184, 120769417);
    }
    if month == 69 {
        assert(42800 * 42969570227681012886929591844293779739287411376380903024685860369981225315296121674238183369342976int / 2869859254937225361251798186577748236861976456963104300558475845406292137340642511844635009765625int == 640831);
        assert(8388608 * 42969570227681012886929591844293779739287411376380903024685860369981225315296121674238183369342976int / 2869859254937225361251798186577748236861976456963104300558475845406292137340642511844635009765625int == 125600194);
        return (640831, 125600194);
    }
    if month == 70 {
        assert(42800 * 1117208825919706335060169387951638273221472695785903478641832369619511858197699163530192767602917376int / 71746481373430634031294954664443705921549411424077607513961896135157303433516062796115875244140625int == 666465);
        assert(8388608 * 1117208825919706335060169387951638273221472695785903478641832369619511858197699163530192767602917376int / 71746481373430634031294954664443705921549411424077607513961896135157303433516062796115875244140625int == 130624202);
        return (666465, 130624202);
    }
    if month == 71 {
        assert(42800 * 29047429473912364711564404086742595103758290090433490444687641610107308313140178251785011957675851776int / 1793662034335765850782373866611092648038735285601940187849047403378932585837901569902896881103515625int == 693123);
        assert(8388608 * 29047429473912364711564404086742595103758290090433490444687641610107308313140178251785011957675851776int / 1793662034335765850782373866611092648038735285601940187849047403378932585837901569902896881103515625int == 135849170);
        return (693123, 135849170);
    }
    (693123, 135849170)
}

/// Both limits for a month from 72 up to 83: first the one on
/// authorizations, then the one on bytes.
fn limits_of_months_6(month: u32) -> (limits: (usize, usize))
    requires
        72 <= month < 84,
    ensures
        limits.0 == 42800 * pow(26, month as nat) / pow(25, month as nat),
        limits.1 == 8388608 * pow(26, month as nat) / pow(25, month as nat),
{
    proof {
        lemma_powers_6();
    }
    if month == 72 {
        assert(42800 * 755233166321721482500674506255307472697715542351270751561878681862790016141644634546410310899572146176int / 44841550858394146269559346665277316200968382140048504696226185084473314645947539247572422027587890625int == 720848);
        assert(8388608 * 755233166321721482500674506255307472697715542351270751561878681862790016141644634546410310899572146176int / 44841550858394146269559346665277316200968382140048504696226185084473314645947539247572422027587890625int == 141283137);
        return (720848, 141283137);
    }
    if month == 73 {
        assert(42800 * 19636062324364758545017537162637994290140604101133039540608845728432540419682760498206668083388875800576int / 1121038771459853656738983666631932905024209553501212617405654627111832866148688481189310550689697265625int == 749682);
        assert(8388608 * 19636062324364758545017537162637994290140604101133039540608845728432540419682760498206668083388875800576int / 1121038771459853656738983666631932905024209553501212617405654627111832866148688481189310550689697265625int == 146934462);
        return (749682, 146934462);
    }
    if month == 74 {
        assert(42800 * 510537620433483722170455966228587851543655706629459028055829988939246050911751772953373370168110770814976int / 28025969286496341418474591665798322625605238837530315435141365677795821653717212029732763767242431640625int == 779670);
        assert(8388608 * 510537620433483722170455966228587851543655706629459028055829988939246050911751772953373370168110770814976int / 28025969286496341418474591665798322625605238837530315435141365677795821653717212029732763767242431640625int == 152811841);
        return (779670, 152811841);
    }
    if month == 75 {
        assert(42800 * 13273978131270576776431855121943284140135048372365934729451579712420397323705546096787707624370880041189376int / 700649232162408535461864791644958065640130970938257885878534141944895541342930300743319094181060791015625int == 810856);
        assert(8388608 * 13273978131270576776431855121943284140135048372365934729451579712420397323705546096787707624370880041189376int / 700649232162408535461864791644958065640130970938257885878534141944895541342930300743319094181060791015625int == 158924314);
        return (810856, 158924314);
    }
    if month == 76 {
        assert(42800 * 345123431413034996187228233170525387643511257681514302965741072522930330416344198516480398233642881070923776int / 17516230804060213386546619791123951641003274273456447146963353548622388533573257518582977354526519775390625int == 843291);
        assert(8388608 * 345123431413034996187228233170525387643511257681514302965741072522930330416344198516480398233642881070923776int / 17516230804060213386546619791123951641003274273456447146963353548622388533573257518582977354526519775390625int == 165281287);
        return (843291, 165281287);
    }
    if month == 77 {
        assert(42800 * 8973209216738909900867934062433660078731292699719371877109267885596188590824949161428490354074714907844018176int / 437905770101505334663665494778098791025081856836411178674083838715559713339331437964574433863162994384765625int == 877022);
        assert(8388608 * 8973209216738909900867934062433660078731292699719371877109267885596188590824949161428490354074714907844018176int / 437905770101505334663665494778098791025081856836411178674083838715559713339331437964574433863162994384765625int == 171892538);
        return (877022, 171892538);
    }
    if month == 78 {
        assert(42800 * 233303439635211657422566285623275162047013610192703668804840965025500903361448678197140749205942587603944472576int / 10947644252537633366591637369452469775627046420910279466852095967888992833483285949114360846579074859619140625int == 912103);
        assert(8388608 * 233303439635211657422566285623275162047013610192703668804840965025500903361448678197140749205942587603944472576int / 10947644252537633366591637369452469775627046420910279466852095967888992833483285949114360846579074859619140625int == 178768240);
        return (912103, 178768240);
    }
    if month == 79 {
        assert(42800 * 6065889430515503092986723426205154213222353865010295388925865090663023487397665633125659479354507277702556286976int / 273691106313440834164790934236311744390676160522756986671302399197224820837082148727859021164476871490478515625int == 948587);
        assert(8388608 * 6065889430515503092986723426205154213222353865010295388925865090663023487397665633125659479354507277702556286976int / 273691106313440834164790934236311744390676160522756986671302399197224820837082148727859021164476871490478515625int == 185918970);
        return (948587, 185918970);
    }
    if month == 80 {
        assert(42800 * 157713125193403080417654809081334009543781200490267680112072492357238610672339306461267146463217189220266463461376int / 6842277657836020854119773355907793609766904013068924666782559979930620520927053718196475529111921787261962890625int == 986531);
        assert(8388608 * 157713125193403080417654809081334009543781200490267680112072492357238610672339306461267146463217189220266463461376int / 6842277657836020854119773355907793609766904013068924666782559979930620520927053718196475529111921787261962890625int == 193355728);
        return (986531, 193355728);
    }
    if month == 81 {
        assert(42800 * 4100541255028480090859025036114684248138311212746959682913884801288203877480821967992945808043646919726928049995776int / 171056941445900521352994333897694840244172600326723116669563999498265513023176342954911888227798044681549072265625int == 1025992);
        assert(8388608 * 4100541255028480090859025036114684248138311212746959682913884801288203877480821967992945808043646919726928049995776int / 171056941445900521352994333897694840244172600326723116669563999498265513023176342954911888227798044681549072265625int == 201089958);
        return (1025992, 201089958);
    }
    if month == 82 {
        assert(42800 * 106614072630740482362334650938981790451596091531420951755761004833493300814501371167816591009134819912900129299890176int / 4276423536147513033824858347442371006104315008168077916739099987456637825579408573872797205694951117038726806640625int == 1067032);
        assert(8388608 * 106614072630740482362334650938981790451596091531420951755761004833493300814501371167816591009134819912900129299890176int / 4276423536147513033824858347442371006104315008168077916739099987456637825579408573872797205694951117038726806640625int == 209133556);
        return (1067032, 209133556);
    }
    if month == 83 {
        assert(42800 * 2771965888399252541420700924413526551741498379816944745649786125670825821177035650363231366237505317735403361797144576int / 106910588403687825845621458686059275152607875204201947918477499686415945639485214346819930142373777925968170166015625int == 1109713);
        assert(8388608 * 2771965888399252541420700924413526551741498379816944745649786125670825821177035650363231366237505317735403361797144576int / 106910588403687825845621458686059275152607875204201947918477499686415945639485214346819930142373777925968170166015625int == 217498898);
        return (1109713, 217498898);
    }
    (1109713, 217498898)
}

/// Both limits for a month from 84 up to 95: first the one on
/// authorizations, then the one on bytes.
fn limits_of_months_7(month: u32) -> (limits: (usize, usize))
    requires
        84 <= month < 96,
    ensures
        limits.0 == 42800 * pow(26, month as nat) / pow(25, month as nat),
        limits.1 == 8388608 * pow(26, month as nat) / pow(25, month as nat),
{
    proof {
        lemma_powers_7();
    }
    if month == 84 {
        assert(42800 * 72071113098380566076938224034751690345278957875240563386894439267441471350602926909444015522175138261120487406725758976int / 2672764710092195646140536467151481878815196880105048697961937492160398640987130358670498253559344448149204254150390625int == 1154102);
        assert(8388608 * 72071113098380566076938224034751690345278957875240563386894439267441471350602926909444015522175138261120487406725758976int / 2672764710092195646140536467151481878815196880105048697961937492160398640987130358670498253559344448149204254150390625int == 226198854);
        return (1154102, 226198854);
    }
    if month == 85 {
        assert(42800 * 1873848940557894718000393824903543948977252904756254648059255420953478255115676099645544403576553594789132672574869733376int / 66819117752304891153513411678787046970379922002626217449048437304009966024678258966762456338983611203730106353759765625int == 1200266);
        assert(8388608 * 1873848940557894718000393824903543948977252904756254648059255420953478255115676099645544403576553594789132672574869733376int / 66819117752304891153513411678787046970379922002626217449048437304009966024678258966762456338983611203730106353759765625int == 235246808);
        return (1200266, 235246808);
    }
    if month == 86 {
        assert(42800 * 48720072454505262668010239447492142673408575523662620849540640944790434633007578590784154492990393464517449486946613067776int / 1670477943807622278837835291969676174259498050065655436226210932600249150616956474169061408474590280093252658843994140625int == 1248276);
        assert(8388608 * 48720072454505262668010239447492142673408575523662620849540640944790434633007578590784154492990393464517449486946613067776int / 1670477943807622278837835291969676174259498050065655436226210932600249150616956474169061408474590280093252658843994140625int == 244656681);
        return (1248276, 244656681);
    }
    if month == 87 {
        assert(42800 * 1266721883817136829368266225634795709508622963615228142088056664564551300458197043360388016817750230077453686660611939762176int / 41761948595190556970945882299241904356487451251641385905655273315006228765423911854226535211864757002331316471099853515625int == 1298208);
        assert(8388608 * 1266721883817136829368266225634795709508622963615228142088056664564551300458197043360388016817750230077453686660611939762176int / 41761948595190556970945882299241904356487451251641385905655273315006228765423911854226535211864757002331316471099853515625int == 254442948);
        return (1298208, 254442948);
    }
    if month == 88 {
        assert(42800 * 32934768979245557563574921866504688447224197053995931694289473278678333811913123127370088437261505982013795853175910433816576int / 1044048714879763924273647057481047608912186281291034647641381832875155719135597796355663380296618925058282911777496337890625int == 1350136);
        assert(8388608 * 32934768979245557563574921866504688447224197053995931694289473278678333811913123127370088437261505982013795853175910433816576int / 1044048714879763924273647057481047608912186281291034647641381832875155719135597796355663380296618925058282911777496337890625int == 264620666);
        return (1350136, 264620666);
    }
    if month == 89 {
        assert(42800 * 856303993460384496652947968529121899627829123403894224051526305245636679109741201311622299368799155532358692182573671279230976int / 26101217871994098106841176437026190222804657032275866191034545821878892978389944908891584507415473126457072794437408447265625int == 1404141);
        assert(8388608 * 856303993460384496652947968529121899627829123403894224051526305245636679109741201311622299368799155532358692182573671279230976int / 26101217871994098106841176437026190222804657032275866191034545821878892978389944908891584507415473126457072794437408447265625int == 275205492);
        return (1404141, 275205492);
    }
    if month == 90 {
        assert(42800 * 22263903829969996912976647181757169390323557208501249825339683936386553656853271234102179783588778043841325996746915453260005376int / 652530446799852452671029410925654755570116425806896654775863645546972324459748622722289612685386828161426819860935211181640625int == 1460307);
        assert(8388608 * 22263903829969996912976647181757169390323557208501249825339683936386553656853271234102179783588778043841325996746915453260005376int / 652530446799852452671029410925654755570116425806896654775863645546972324459748622722289612685386828161426819860935211181640625int == 286213712);
        return (1460307, 286213712);
    }
    if month == 91 {
        assert(42800 * 578861499579219919737392826725686404148412487421032495458831782346050395078185052086656674373308229139874475915419801784760139776int / 16313261169996311316775735273141368889252910645172416369396591138674308111493715568057240317134670704035670496523380279541015625int == 1518719);
        assert(8388608 * 578861499579219919737392826725686404148412487421032495458831782346050395078185052086656674373308229139874475915419801784760139776int / 16313261169996311316775735273141368889252910645172416369396591138674308111493715568057240317134670704035670496523380279541015625int == 297662261);
        return (1518719, 297662261);
    }
    if month == 92 {
        assert(42800 * 15050398989059717913172213494867846507858724672946844881929626340997310272032811354253073533706013957636736373800914846403763634176int / 407831529249907782919393381828534222231322766129310409234914778466857702787342889201431007928366767600891762413084506988525390625int == 1579468);
        assert(8388608 * 15050398989059717913172213494867846507858724672946844881929626340997310272032811354253073533706013957636736373800914846403763634176int / 407831529249907782919393381828534222231322766129310409234914778466857702787342889201431007928366767600891762413084506988525390625int == 309568751);
        return (1579468, 309568751);
    }
    if month == 93 {
        assert(42800 * 391310373715552665742477550866564009204326841496617966930170284865930067072853095210579911876356362898555145718823786006497854488576int / 10195788231247694572984834545713355555783069153232760230872869461671442569683572230035775198209169190022294060327112674713134765625int == 1642647);
        assert(8388608 * 391310373715552665742477550866564009204326841496617966930170284865930067072853095210579911876356362898555145718823786006497854488576int / 10195788231247694572984834545713355555783069153232760230872869461671442569683572230035775198209169190022294060327112674713134765625int == 321951501);
        return (1642647, 321951501);
    }
    if month == 94 {
        assert(42800 * 10174069716604369309304416322530664239312497878912067140184427406514181743894180475475077708785265435362433788689418436168944216702976int / 254894705781192364324620863642833888894576728830819005771821736541786064242089305750894379955229229750557351508177816867828369140625int == 1708353);
        assert(8388608 * 10174069716604369309304416322530664239312497878912067140184427406514181743894180475475077708785265435362433788689418436168944216702976int / 254894705781192364324620863642833888894576728830819005771821736541786064242089305750894379955229229750557351508177816867828369140625int == 334829561);
        return (1708353, 334829561);
    }
    if month == 95 {
        assert(42800 * 264525812631713602041914824385797270222124944851713745644795112569368725341248692362352020428416901319423278505924879340392549634277376int / 6372367644529809108115521591070847222364418220770475144295543413544651606052232643772359498880730743763933787704445421695709228515625int == 1776687);
        assert(8388608 * 264525812631713602041914824385797270222124944851713745644795112569368725341248692362352020428416901319423278505924879340392549634277376int / 6372367644529809108115521591070847222364418220770475144295543413544651606052232643772359498880730743763933787704445421695709228515625int == 348222744);
        return (1776687, 348222744);
    }
    (1776687, 348222744)
}

/// Both limits for a month from 96 up to 107: first the one on
/// authorizations, then the one on bytes.
fn limits_of_months_8(month: u32) -> (limits: (usize, usize))
    requires
        96 <= month < 108,
    ensures
        limits.0 == 42800 * pow(26, month as nat) / pow(25, month as nat),
        limits.1 == 8388608 * pow(26, month as nat) / pow(25, month as nat),
{
    proof {
        lemma_powers_8();
    }
    if month == 96 {
        assert(42800 * 6877671128424553653089785434030729025775248566144557386764672926803586858872466001421152531138839434305005241154046862850206290491211776int / 159309191113245227702888039776771180559110455519261878607388585338616290151305816094308987472018268594098344692611135542392730712890625int == 1847754);
        assert(8388608 * 6877671128424553653089785434030729025775248566144557386764672926803586858872466001421152531138839434305005241154046862850206290491211776int / 159309191113245227702888039776771180559110455519261878607388585338616290151305816094308987472018268594098344692611135542392730712890625int == 362151653);
        return (1847754, 362151653);
    }
    if month == 97 {
        assert(42800 * 178819449339038394980334421284798954670156462719758492055881496096893258330684116036949965809609825291930136270005218434105363552771506176int / 3982729777831130692572200994419279513977761387981546965184714633465407253782645402357724686800456714852458617315278388559818267822265625int == 1921665);
        assert(8388608 * 178819449339038394980334421284798954670156462719758492055881496096893258330684116036949965809609825291930136270005218434105363552771506176int / 3982729777831130692572200994419279513977761387981546965184714633465407253782645402357724686800456714852458617315278388559818267822265625int == 376637720);
        return (1921665, 376637720);
    }
    if month == 98 {
        assert(42800 * 4649305682814998269488694953404772821424068030713720793452918898519224716597787016960699111049855457590183543020135679286739452372059160576int / 99568244445778267314305024860481987849444034699538674129617865836635181344566135058943117170011417871311465432881959713995456695556640625int == 1998531);
        assert(8388608 * 4649305682814998269488694953404772821424068030713720793452918898519224716597787016960699111049855457590183543020135679286739452372059160576int / 99568244445778267314305024860481987849444034699538674129617865836635181344566135058943117170011417871311465432881959713995456695556640625int == 391703228);
        return (1998531, 391703228);
    }
    if month == 99 {
        assert(42800 * 120881947753189955006706068788524093357025768798556740629775891361499842631542462440978176887296241897344772118523527661455225761673538174976int / 2489206111144456682857625621512049696236100867488466853240446645915879533614153376473577929250285446782786635822048992849886417388916015625int == 2078472);
        assert(8388608 * 120881947753189955006706068788524093357025768798556740629775891361499842631542462440978176887296241897344772118523527661455225761673538174976int / 2489206111144456682857625621512049696236100867488466853240446645915879533614153376473577929250285446782786635822048992849886417388916015625int == 407371358);
        return (2078472, 407371358);
    }
    if month == 100 {
        assert(42800 * 3142930641582938830174357788501626427282669988762475256374173175398995908420104023465432599069702289330964075081611719197835869803511992549376int / 62230152778611417071440640537801242405902521687211671331011166147896988340353834411839448231257136169569665895551224821247160434722900390625int == 2161611);
        assert(8388608 * 3142930641582938830174357788501626427282669988762475256374173175398995908420104023465432599069702289330964075081611719197835869803511992549376int / 62230152778611417071440640537801242405902521687211671331011166147896988340353834411839448231257136169569665895551224821247160434722900390625int == 423666212);
        return (2161611, 423666212);
    }
    if month == 101 {
        assert(42800 * 81716196681156409584533302501042287109349419707824356665728502560373893618922704610101247575812259522605065952121904699143732614891311806283776int / 1555753819465285426786016013445031060147563042180291783275279153697424708508845860295986205781428404239241647388780620531179010868072509765625int == 2248076);
        assert(8388608 * 81716196681156409584533302501042287109349419707824356665728502560373893618922704610101247575812259522605065952121904699143732614891311806283776int / 1555753819465285426786016013445031060147563042180291783275279153697424708508845860295986205781428404239241647388780620531179010868072509765625int == 440612860);
        return (2248076, 440612860);
    }
    if month == 102 {
        assert(42800 * 2124621113710066649197865865027099464843084912403433273308941066569721234091990319862632436971118747587731714755169522177737047987174106963378176int / 38893845486632135669650400336125776503689076054507294581881978842435617712721146507399655144535710105981041184719515513279475271701812744140625int == 2337999);
        assert(8388608 * 2124621113710066649197865865027099464843084912403433273308941066569721234091990319862632436971118747587731714755169522177737047987174106963378176int / 38893845486632135669650400336125776503689076054507294581881978842435617712721146507399655144535710105981041184719515513279475271701812744140625int == 458237375);
        return (2337999, 458237375);
    }
    if month == 103 {
        assert(42800 * 55240148956461732879144512490704586085920207722489265106032467730812752086391748316428443361249087437281024583634407576621163247666526781047832576int / 972346137165803391741260008403144412592226901362682364547049471060890442818028662684991378613392752649526029617987887831986881792545318603515625int == 2431519);
        assert(8388608 * 55240148956461732879144512490704586085920207722489265106032467730812752086391748316428443361249087437281024583634407576621163247666526781047832576int / 972346137165803391741260008403144412592226901362682364547049471060890442818028662684991378613392752649526029617987887831986881792545318603515625int == 476566870);
        return (2431519, 476566870);
    }
    if month == 104 {
        assert(42800 * 1436243872868005054857757324758319238233925400784720892756844161001131554246185456227139527392476273369306639174494596992150244439329696307243646976int / 24308653429145084793531500210078610314805672534067059113676236776522261070450716567124784465334818816238150740449697195799672044813632965087890625int == 2528780);
        assert(8388608 * 1436243872868005054857757324758319238233925400784720892756844161001131554246185456227139527392476273369306639174494596992150244439329696307243646976int / 24308653429145084793531500210078610314805672534067059113676236776522261070450716567124784465334818816238150740449697195799672044813632965087890625int == 495629545);
        return (2528780, 495629545);
    }
    if month == 105 {
        assert(42800 * 37342340694568131426301690443716300194082060420402743211677948186029420410400821861905627712204383107601972618536859521795906355422572103988334821376int / 607716335728627119838287505251965257870141813351676477841905919413056526761267914178119611633370470405953768511242429894991801120340824127197265625int == 2629931);
        assert(8388608 * 37342340694568131426301690443716300194082060420402743211677948186029420410400821861905627712204383107601972618536859521795906355422572103988334821376int / 607716335728627119838287505251965257870141813351676477841905919413056526761267914178119611633370470405953768511242429894991801120340824127197265625int == 515454726);
        return (2629931, 515454726);
    }
    if month == 106 {
        assert(42800 * 970900858058771417083843951536623805046133570930471323503626652836764930670421368409546320517313960797651288081958347566693565240986874703696705355776int / 15192908393215677995957187631299131446753545333791911946047647985326413169031697854452990290834261760148844212781060747374795028008520603179931640625int == 2735128);
        assert(8388608 * 970900858058771417083843951536623805046133570930471323503626652836764930670421368409546320517313960797651288081958347566693565240986874703696705355776int / 15192908393215677995957187631299131446753545333791911946047647985326413169031697854452990290834261760148844212781060747374795028008520603179931640625int == 536072916);
        return (2735128, 536072916);
    }
    if month == 107 {
        assert(42800 * 25243422309528056844179942739952218931199472844192254411094292973755888197430955578648204333450162980738933490130917036734032696265658742296114339250176int / 379822709830391949898929690782478286168838633344797798651191199633160329225792446361324757270856544003721105319526518684369875700213015079498291015625int == 2844533);
        assert(8388608 * 25243422309528056844179942739952218931199472844192254411094292973755888197430955578648204333450162980738933490130917036734032696265658742296114339250176int / 379822709830391949898929690782478286168838633344797798651191199633160329225792446361324757270856544003721105319526518684369875700213015079498291015625int == 557515832);
        return (2844533, 557515832);
    }
    (2844533, 557515832)
}

/// Both limits for a month from 108 up to 119: first the one on
/// authorizations, then the one on bytes.
fn limits_of_months_9(month: u32) -> (limits: (usize, usize))
    requires
        108 <= month < 120,
    ensures
        limits.0 == 42800 * pow(26, month as nat) / pow(25, month as nat),
        limits.1 == 8388608 * pow(26, month as nat) / pow(25, month as nat),
{
    proof {
        lemma_powers_9();
    }
    if month == 108 {
        assert(42800 * 656328980047729477948678511238757692211186293948998614688451617317653093133204845044853312669704237499212270743403842955084850102907127299698972820504576int / 9495567745759798747473242269561957154220965833619944966279779990829008230644811159033118931771413600093027632988162967109246892505325376987457275390625int == 2958314);
        assert(8388608 * 656328980047729477948678511238757692211186293948998614688451617317653093133204845044853312669704237499212270743403842955084850102907127299698972820504576int / 9495567745759798747473242269561957154220965833619944966279779990829008230644811159033118931771413600093027632988162967109246892505325376987457275390625int == 579816465);
        return (2958314, 579816465);
    }
    if month == 109 {
        assert(42800 * 17064553481240966426665641292207699997490843642673963981899742050258980421463325971166186129412310174979519039328499916832206102675585309792173293333118976int / 237389193643994968686831056739048928855524145840498624156994499770725205766120278975827973294285340002325690824704074177731172312633134424686431884765625int == 3076647);
        assert(8388608 * 17064553481240966426665641292207699997490843642673963981899742050258980421463325971166186129412310174979519039328499916832206102675585309792173293333118976int / 237389193643994968686831056739048928855524145840498624156994499770725205766120278975827973294285340002325690824704074177731172312633134424686431884765625int == 603009124);
        return (3076647, 603009124);
    }
    if month == 110 {
        assert(42800 * 443678390512265127093306673597400199934761934709523063529393293306733490958046475250320839364720064549467495022540997837637358669565218054596505626661093376int / 5934729841099874217170776418476223221388103646012465603924862494268130144153006974395699332357133500058142270617601854443279307815828360617160797119140625int == 3199713);
        assert(8388608 * 443678390512265127093306673597400199934761934709523063529393293306733490958046475250320839364720064549467495022540997837637358669565218054596505626661093376int / 5934729841099874217170776418476223221388103646012465603924862494268130144153006974395699332357133500058142270617601854443279307815828360617160797119140625int == 627129489);
        return (3199713, 627129489);
    }
    if month == 111 {
        assert(42800 * 11535638153318893304425973513532405198303810302447599651764225625975070764909208356508341823482721678286154870586065943778571325408695669419509146293188427776int / 148368246027496855429269410461905580534702591150311640098121562356703253603825174359892483308928337501453556765440046361081982695395709015429019927978515625int == 3327702);
        assert(8388608 * 11535638153318893304425973513532405198303810302447599651764225625975070764909208356508341823482721678286154870586065943778571325408695669419509146293188427776int / 148368246027496855429269410461905580534702591150311640098121562356703253603825174359892483308928337501453556765440046361081982695395709015429019927978515625int == 652214669);
        return (3327702, 652214669);
    }
    if month == 112 {
        assert(42800 * 299926591986291225915075311351842535155899067863637590945869866275351839887639417269216887410550763635440026635237714538242854460626087404907237803622899122176int / 3709206150687421385731735261547639513367564778757791002453039058917581340095629358997312082723208437536338919136001159027049567384892725385725498199462890625int == 3460810);
        assert(8388608 * 299926591986291225915075311351842535155899067863637590945869866275351839887639417269216887410550763635440026635237714538242854460626087404907237803622899122176int / 3709206150687421385731735261547639513367564778757791002453039058917581340095629358997312082723208437536338919136001159027049567384892725385725498199462890625int == 678303255);
        return (3460810, 678303255);
    }
    if month == 113 {
        assert(42800 * 7798091391643571873791958095147905914053375764454577364592616523159147837078624848999639072674319854521440692516180577994314215976278272527588182894195377176576int / 92730153767185534643293381538690987834189119468944775061325976472939533502390733974932802068080210938408472978400028975676239184622318134643137454986572265625int == 3599242);
        assert(8388608 * 7798091391643571873791958095147905914053375764454577364592616523159147837078624848999639072674319854521440692516180577994314215976278272527588182894195377176576int / 92730153767185534643293381538690987834189119468944775061325976472939533502390733974932802068080210938408472978400028975676239184622318134643137454986572265625int == 705435386);
        return (3599242, 705435386);
    }
    if month == 114 {
        assert(42800 * 202750376182732868718590910473845553765387769875819011479408029602137843764044246073990615889532316217557458005420695027852169615383235085717292755249079806590976int / 2318253844179638366082334538467274695854727986723619376533149411823488337559768349373320051702005273460211824460000724391905979615557953366078436374664306640625int == 3743212);
        assert(8388608 * 202750376182732868718590910473845553765387769875819011479408029602137843764044246073990615889532316217557458005420695027852169615383235085717292755249079806590976int / 2318253844179638366082334538467274695854727986723619376533149411823488337559768349373320051702005273460211824460000724391905979615557953366078436374664306640625int == 733652801);
        return (3743212, 733652801);
    }
    if month == 115 {
        assert(42800 * 5271509780751054586683363672319984397900082016771294298464608769655583937865150397923756013127840221656493908140938070724156409999964112228649611636476074971365376int / 57956346104490959152058363461681867396368199668090484413328735295587208438994208734333001292550131836505295611500018109797649490388948834151960909366607666015625int == 3892940);
        assert(8388608 * 5271509780751054586683363672319984397900082016771294298464608769655583937865150397923756013127840221656493908140938070724156409999964112228649611636476074971365376int / 57956346104490959152058363461681867396368199668090484413328735295587208438994208734333001292550131836505295611500018109797649490388948834151960909366607666015625int == 762998913);
        return (3892940, 762998913);
    }
    if month == 116 {
        assert(42800 * 137059254299527419253767455480319594345402132436053651760079828011045182384493910346017656341323845763068841611664389838828066659999066917944889902548377949255499776int / 1448908652612273978801459086542046684909204991702262110333218382389680210974855218358325032313753295912632390287500452744941237259723720853799022734165191650390625int == 4048658);
        assert(8388608 * 137059254299527419253767455480319594345402132436053651760079828011045182384493910346017656341323845763068841611664389838828066659999066917944889902548377949255499776int / 1448908652612273978801459086542046684909204991702262110333218382389680210974855218358325032313753295912632390287500452744941237259723720853799022734165191650390625int == 793518870);
        return (4048658, 793518870);
    }
    if month == 117 {
        assert(42800 * 3563540611787712900597953842488309452980455443337394945762075528287174741996841668996459064874419989839789881903274135809529733159975739866567137466257826680642994176int / 36222716315306849470036477163551167122730124792556552758330459559742005274371380458958125807843832397815809757187511318623530931493093021344975568354129791259765625int == 4210604);
        assert(8388608 * 3563540611787712900597953842488309452980455443337394945762075528287174741996841668996459064874419989839789881903274135809529733159975739866567137466257826680642994176int / 36222716315306849470036477163551167122730124792556552758330459559742005274371380458958125807843832397815809757187511318623530931493093021344975568354129791259765625int == 825259625);
        return (4210604, 825259625);
    }
    if month == 118 {
        assert(42800 * 92652055906480535415546799904696045777491841526772268589813963735466543291917883393907935686734919735834536929485127531047773062159369236530745574122703493696717848576int / 905567907882671236750911929088779178068253119813913818958261488993550131859284511473953145196095809945395243929687782965588273287327325533624389208853244781494140625int == 4379028);
        assert(8388608 * 92652055906480535415546799904696045777491841526772268589813963735466543291917883393907935686734919735834536929485127531047773062159369236530745574122703493696717848576int / 905567907882671236750911929088779178068253119813913818958261488993550131859284511473953145196095809945395243929687782965588273287327325533624389208853244781494140625int == 858270010);
        return (4379028, 858270010);
    }
    if month == 119 {
        assert(42800 * 2408953453568493920804216797522097190214787879696078983335163057122130125589864968241606327855107913131697960166613315807242099616143600149799384927190290836114664062976int / 22639197697066780918772798227219479451706327995347845473956537224838753296482112786848828629902395248634881098242194574139706832183183138340609730221331119537353515625int == 4554190);
        assert(8388608 * 2408953453568493920804216797522097190214787879696078983335163057122130125589864968241606327855107913131697960166613315807242099616143600149799384927190290836114664062976int / 22639197697066780918772798227219479451706327995347845473956537224838753296482112786848828629902395248634881098242194574139706832183183138340609730221331119537353515625int == 892600810);
        return (4554190, 892600810);
    }
    (4554190, 892600810)
}

/// Both limits for a block at `height`: first the one on authorizations,
/// then the one on bytes.
fn limits_at(height: u32) -> (limits: (usize, usize))
    ensures
        limits.0 == spec_body_sigops_limit(height),
        limits.1 == spec_body_size_limit(height),
{
    let month: u32 = height / BLOCKS_PER_MONTH;
    if month < 12 {
        limits_of_months_0(month)
    } else if month < 24 {
        limits_of_months_1(month)
    } else if month < 36 {
        limits_of_months_2(month)
    } else if month < 48 {
        limits_of_months_3(month)
    } else if month < 60 {
        limits_of_months_4(month)
    } else if month < 72 {
        limits_of_months_5(month)
    } else if month < 84 {
        limits_of_months_6(month)
    } else if month < 96 {
        limits_of_months_7(month)
    } else if month < 108 {
        limits_of_months_8(month)
    } else if month < 120 {
        limits_of_months_9(month)
    } else {
        (START_SIGOPS * 111, START_SIZE * 111)
    }
}

/// The most authorizations that the body of a block at `height` may hold.
pub fn body_sigops_limit(height: u32) -> (limit: usize)
    ensures
        limit == spec_body_sigops_limit(height),
{
    limits_at(height).0
}

/// The most bytes that the body of a block at `height` may take.
pub fn body_size_limit(height: u32) -> (limit: usize)
    ensures
        limit == spec_body_size_limit(height),
{
    limits_at(height).1
}

} // verus!
