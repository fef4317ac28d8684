use comet::c_math::calc_in_given_out;
use comet::c_math::calc_out_given_in;
use comet::c_math::calc_pool_in_given_single_out;
use comet::c_math::calc_pool_out_given_single_in;
use comet::c_math::calc_single_in_given_pool_out;
use comet::c_math::calc_single_out_given_pool_in;
use comet::c_math::calc_spot_price;
use comet::c_num::c_pow;
use comet::c_pool::error::Error;

#[test]
fn powers_by_the_table() {
    let table: [(i128, i128, Result<i128, Error>); 120] = [
    (6097043, 406527832, Ok(1)),
    (11884053, 5193038, Ok(10937789)),
    (15721366, 2, Ok(10000002)),
    (7331460, 177610977, Ok(40332)),
    (14321263, 122998762, Ok(828994007)),
    (9999653, -2, Err(Error::OutOfBounds)),
    (9999755, -1, Err(Error::OutOfBounds)),
    (11257552, 2214758, Ok(10265823)),
    (5829676, 377871290, Ok(1)),
    (9999490, 2, Ok(10000000)),
    (10056223, 2277794, Ok(10012781)),
    (10000606, 10000000, Ok(10000606)),
    (1530401, 123237845, Ok(1)),
    (2948544, 8188117, Ok(3678848)),
    (4204868, 9999999, Ok(4204869)),
    (4122647, 55726398, Ok(71700)),
    (8123213, 2, Ok(10000000)),
    (10000774, 319106945, Ok(10024749)),
    (13351308, 0, Ok(10000000)),
    (98085, 1, Ok(10000000)),
    (18361429, 182529471, Ok(656258068883)),
    (3606770, 20000000, Ok(1300879)),
    (10000705, 7278887, Ok(10000514)),
    (4001210, -3, Err(Error::OutOfBounds)),
    (8874036, 9116868, Ok(8968151)),
    (3445909, -2, Err(Error::OutOfBounds)),
    (19231683, 10000001, Ok(19231685)),
    (19845692, 213746809, Ok(23048934927511)),
    (9999862, 165680301, Ok(9997730)),
    (9999516, 141121546, Ok(9993185)),
    (9558561, 10000000, Ok(9558561)),
    (13698890, 5000000000, Err(Error::ArithmeticOverflow)),
    (12586502, 1700589, Ok(10398962)),
    (5550304, 101674971, Ok(25140)),
    (15847379, -2, Err(Error::OutOfBounds)),
    (3284408, 3, Ok(9999998)),
    (10679544, 10000000, Ok(10679544)),
    (4676762, 428923696, Ok(1)),
    (18193484, 3897272, Ok(12626969)),
    (9999068, 20000000, Ok(9998137)),
    (9769543, 2, Ok(10000000)),
    (16883379, 272496365, Ok(15782887470989)),
    (14751298, 2367323, Ok(10963973)),
    (10000374, 10000000, Ok(10000374)),
    (17207766, 361317573, Ok(3289589965458760)),
    (10364340, 10000001, Ok(10364342)),
    (10865054, -1, Err(Error::OutOfBounds)),
    (9999204, 211157938, Ok(9983222)),
    (9999027, 6045400, Ok(9999412)),
    (9999014, 7415199, Ok(9999269)),
    (9999811, -3, Err(Error::OutOfBounds)),
    (17633421, 20000000, Ok(31093754)),
    (12975597, 50000000, Ok(36782121)),
    (10000758, 2747469, Ok(10000209)),
    (6014184, 10000000, Ok(6014184)),
    (5695929, 281031530, Ok(2)),
    (3627618, 272685678, Ok(1)),
    (1211172, -1, Err(Error::OutOfBounds)),
    (1945221, 9895436, Ok(1978841)),
    (2880527, 338004645, Ok(1)),
    (7757095, 50000000, Ok(2808638)),
    (8135902, 257638175, Ok(49172)),
    (10000398, 0, Ok(10000000)),
    (6981120, 9109755, Ok(7208085)),
    (12114391, 102881647, Ok(71948323)),
    (9999952, 5000000000, Ok(9976518)),
    (7975334, 5000000000, Ok(1)),
    (7731972, 2, Ok(10000000)),
    (6446611, 2, Ok(10000000)),
    (6816347, 50000000, Ok(1471495)),
    (11471494, 1, Ok(10000001)),
    (7629481, 20000000, Ok(5820899)),
    (16508134, 6521681, Ok(13866803)),
    (13894118, 446474921, Ok(23825702542216)),
    (6951301, 1718261, Ok(9394271)),
    (10000245, 10000000, Ok(10000245)),
    (11836849, 5000000000, Err(Error::ArithmeticOverflow)),
    (18172325, 154241068, Ok(100271567879)),
    (12206307, 89917509, Ok(60054365)),
    (12927802, 161021176, Ok(624861873)),
    (11419185, 346739675, Ok(996410581)),
    (10550206, 124431863, Ok(19473339)),
    (8511490, 8770974, Ok(8681769)),
    (9999893, 9999999, Ok(9999894)),
    (14363061, 122893127, Ok(855969155)),
    (9999124, 3062926, Ok(9999732)),
    (9645633, 0, Ok(10000000)),
    (11994742, 486898561, Ok(70154658891)),
    (10000034, 3045776, Ok(10000011)),
    (3277887, 3, Ok(9999998)),
    (1992782, 4130997, Ok(5135867)),
    (2120063, 7158936, Ok(3294165)),
    (19250086, -3, Err(Error::OutOfBounds)),
    (9999387, 268147575, Ok(9983597)),
    (13392575, 3, Ok(10000002)),
    (10000238, 0, Ok(10000000)),
    (4337926, 1, Ok(10000000)),
    (7272417, 8137055, Ok(7716984)),
    (3482695, -1, Err(Error::OutOfBounds)),
    (9999106, 5000000000, Ok(9563139)),
    (3581040, 3134689, Ok(7247651)),
    (10000992, 1, Ok(10000001)),
    (10000516, 3, Ok(10000001)),
    (11596985, 410851427, Ok(4401778993)),
    (367519, 382580477, Ok(1)),
    (3464377, 1204807, Ok(8801063)),
    (9660060, 257932, Ok(9991084)),
    (12890775, 4013554, Ok(11072898)),
    (14939928, 12550559, Ok(16550747)),
    (5842323, 3902597, Ok(8107899)),
    (11584748, 224891773, Ok(273374037)),
    (13836378, -1, Err(Error::OutOfBounds)),
    (13663062, -3, Err(Error::OutOfBounds)),
    (917179, -3, Err(Error::OutOfBounds)),
    (12826645, -2, Err(Error::OutOfBounds)),
    (14285104, 9999999, Ok(14285104)),
    (11398039, 50000000, Ok(19237595)),
    (7629778, 2, Ok(10000000)),
    (7734174, 113868590, Ok(536275)),
    (8377234, 7544429, Ok(8749516)),
    ];
    for (base, exp, want) in table {
        assert_eq!(c_pow(base, exp), want, "{} ^ {}", base, exp);
    }
}

#[test]
fn calc_out_given_in_by_the_table() {
    let table: [(i128, i128, i128, i128, i128, i128, Result<i128, Error>); 60] = [
    (876, 8000000, 71807352108725377, 400000000, 0, 30000, Ok(0)),
    (24704996686028587, 499000000, 371, 3333333, 0, 10, Ok(0)),
    (13804910023752939, 12345678, 359177323, 12345678, 2714030047867239, 10, Ok(59012079)),
    (633, 400000000, 84406787, 499000000, 172, 10, Ok(14723413)),
    (681, 10000000, 26864874809850720, 2000000, 431, 30000, Ok(24529769145428571)),
    (15333948281659447, 3333333, 83, 499000000, 12478629502630271, 30000, Ok(0)),
    (5353670869443656, 499000000, 117, 1000000, 597022323057611, 1000000, Ok(116)),
    (100, 3333333, 1425533049058177, 2500000, 0, 30000, Ok(0)),
    (888, 400000000, 54517878547866070, 400000000, 84, 10, Ok(4660122836817334)),
    (875573636, 499000000, 77, 5000000, 273186052, 10, Ok(76)),
    (805677926, 2500000, 96579264402256314, 499000000, 286224064, 10, Ok(146935692861592)),
    (283616172, 400000000, 27250772888504004, 8000000, 20382530, 100, Ok(26402843289459891)),
    (667501017, 50000000, 95452255211018918, 12345678, 459736325, 1000000, Ok(81919244462162120)),
    (598930462, 50000000, 156598393, 2000000, 0, 100, Ok(0)),
    (208205723, 8000000, 90943958616468529, 50000000, 0, 10, Ok(0)),
    (56351744011546122, 12345678, 49979264267622447, 2500000, 0, 1000000, Ok(0)),
    (90771618824688605, 2000000, 88667882460842033, 499000000, 3653512905185693, 100, Ok(14000658640566)),
    (13883465924631891, 2000000, 39965810213367778, 8000000, 7545166405582456, 100, Ok(4109524400999755)),
    (672, 499000000, 396078615, 5000000, 0, 10, Ok(0)),
    (576, 10000000, 10855750867568688, 400000000, 263, 100, Ok(101267871968114)),
    (112, 2000000, 725470068, 400000000, 9, 30000, Ok(250069)),
    (321, 8000000, 834, 50000000, 48, 100, Ok(18)),
    (687, 5000000, 312349701230734723803263511, 1000000, 321, 100, Ok(266188413465007885029605845)),
    (52604310, 499000000, 29805494408788229, 1000000, 0, 10, Ok(0)),
    (165, 2000000, 902613496, 400000000, 144, 30000, Ok(2811641)),
    (808, 8000000, 38587154161611690, 8000000, 0, 10, Ok(0)),
    (541402145516370126995949568, 2000000, 534404547, 10000000, 487359175867668782348695642, 30000, Ok(64255627)),
    (188, 499000000, 68817644840289062, 12345678, 167, 10, Ok(68817637958524577)),
    (175255048429382766510226177, 50000000, 790, 1000000, 8292242902264614519297569, 100, Ok(711)),
    (690186592, 50000000, 631, 12345678, 161896284, 100, Ok(362)),
    (133593364, 1000000, 846, 499000000, 752770, 1000000, Ok(0)),
    (763, 10000000, 998847175, 400000000, 277, 10, Ok(7679736)),
    (886, 10000000, 147155088, 400000000, 51, 10, Ok(201793)),
    (80241934285748479, 2000000, 463, 2000000, 0, 100, Ok(0)),
    (277, 5000000, 148, 8000000, 4, 10, Ok(0)),
    (26873844076642503, 10000000, 8836265, 499000000, 0, 1000000, Ok(0)),
    (577192697525514891288988583, 400000000, 818, 3333333, 328033637453979932115536290, 10, Ok(817)),
    (3811029019776792, 12345678, 25811333682169171, 5000000, 1754102287504736, 10, Ok(15676807761069422)),
    (30529158382927564, 499000000, 66767957321411318, 2500000, 3552772575749262, 1000000, Ok(66767950644615585)),
    (14635945380318119, 3333333, 86772367441795570, 10000000, 0, 10, Ok(0)),
    (387, 499000000, 107525115923078959332502174, 12345678, 349, 30000, Ok(107525105170567367024606240)),
    (254, 50000000, 6812741522439445, 12345678, 0, 30000, Ok(0)),
    (99314148, 3333333, 34879089061181639, 50000000, 0, 10, Ok(0)),
    (66763733026359630, 2500000, 280, 12345678, 342200222032312, 30000, Ok(0)),
    (70491404, 50000000, 180428559785193072087340172, 5000000, 0, 1000000, Ok(0)),
    (409, 499000000, 885, 12345678, 131, 100, Ok(884)),
    (18306035822565826, 400000000, 80062629324629406, 50000000, 6564182258526312, 30000, Ok(73120374717101992)),
    (61260009732795272, 2000000, 4588716272240894, 8000000, 37684826095721486, 100, Ok(518308351355171)),
    (616779416336276, 499000000, 31, 12345678, 392727560997605, 100, Ok(30)),
    (423643458, 400000000, 688308265, 12345678, 414729015, 100, Ok(688308196)),
    (4414698036334489, 50000000, 25906611812732763, 2500000, 3952734069361380, 1000000, Ok(25906420103805348)),
    (94043288375918232698386250, 499000000, 518835804, 2500000, 23098533995152767803213909, 30000, Ok(518835752)),
    (400668548071720276253208584, 1000000, 985671424, 8000000, 27925293669841400749912459, 100, Ok(8266037)),
    (307791755, 5000000, 92443186268381980, 10000000, 296138667, 10, Ok(26448245187987009)),
    (898972049, 50000000, 721, 5000000, 0, 1000000, Ok(0)),
    (80547290196732459, 8000000, 949568913, 1000000, 0, 10, Ok(0)),
    (743784887, 400000000, 81491702, 400000000, 8329690, 1000000, Ok(813164)),
    (710213255, 2500000, 793050840, 3333333, 504581362, 30000, Ok(262322660)),
    (62391610294415810, 2000000, 403185242, 2000000, 32885883082143345, 100, Ok(139162087)),
    (308, 400000000, 76051859, 400000000, 0, 1000000, Ok(0)),
    ];
    for (a, b, c, d, e, f, want) in table {
        assert_eq!(calc_out_given_in(a, b, c, d, e, f), want, "{} {} {} {} {} {}", a, b, c, d, e, f);
    }
}

#[test]
fn calc_in_given_out_by_the_table() {
    let table: [(i128, i128, i128, i128, i128, i128, Result<i128, Error>); 60] = [
    (684, 50000000, 106317188, 499000000, 42011342, 30000, Ok(102954)),
    (348080848892008768798294845, 12345678, 76, 1000000, 0, 30000, Ok(0)),
    (66968428635193673, 50000000, 41200442079210274, 1000000, 10855649871935662, 100, Ok(410908993509758)),
    (89140499941316086, 400000000, 34563588230225346, 3333333, 1454119244462457, 10, Ok(31947987126956)),
    (707732881, 400000000, 63174843314935704, 400000000, 31617701026571230, 10, Err(Error::OutOfBounds)),
    (474082229, 2000000, 40790337493319723, 10000000, 10789803395676375, 10, Ok(1728822697)),
    (10188315563248839, 10000000, 56904709432681969, 10000000, 17330541817013013, 10, Ok(4461729686586330)),
    (499797470015807971659859018, 10000000, 82572056988991909, 50000000, 13867828138314708, 10, Ok(753466730887784078480908661)),
    (29091607078371321, 2500000, 548123583, 8000000, 349658144, 10, Err(Error::OutOfBounds)),
    (55, 1000000, 295769600, 12345678, 81275727, 1000000, Ok(3167)),
    (713575583946171395035758594, 2500000, 675, 50000000, 50, 100, Ok(2612397008840521694798524229)),
    (942774264, 499000000, 284, 10000000, 100, 100, Ok(8237762)),
    (760609249, 5000000, 104, 5000000, 0, 30000, Ok(0)),
    (31662572361755328, 5000000, 75052166592559561, 3333333, 69733628716714669, 1000000, Err(Error::OutOfBounds)),
    (85590603737497512, 400000000, 252, 1000000, 36, 1000000, Ok(36680328735059)),
    (86550242768373012, 12345678, 376850933, 400000000, 0, 10, Ok(0)),
    (31722904364324692, 5000000, 280, 50000000, 217, 100, Err(Error::OutOfBounds)),
    (710302001178837797775178774, 400000000, 42710823655635678, 12345678, 11790537663026483, 1000000, Ok(7908897093348057172538717)),
    (94171462652073034, 3333333, 77250740, 10000000, 75446428, 1000000, Err(Error::OutOfBounds)),
    (4105217230620948, 2500000, 76, 1000000, 20, 100, Ok(533385124539304)),
    (549294155198989902362655623, 3333333, 796, 12345678, 0, 100, Ok(0)),
    (946263926, 12345678, 605095842306644011154554893, 10000000, 326618796796865757588847576, 10, Err(Error::OutOfBounds)),
    (283864164894771018941099683, 8000000, 262254066, 3333333, 32672455, 100, Ok(16182037245114299417444822)),
    (22355151682784982, 12345678, 680, 10000000, 0, 1000000, Ok(0)),
    (705691185, 50000000, 716764787, 499000000, 13330267, 1000000, Ok(161568312)),
    (43850679144647474, 8000000, 420, 8000000, 94, 30000, Ok(12682109014054739)),
    (764512808503520265589252765, 2500000, 68578291812572800, 3333333, 0, 10, Ok(0)),
    (20, 5000000, 86865844593501658, 2500000, 31291987572919019, 30000, Ok(7)),
    (62410196579178193, 10000000, 224, 2000000, 22, 1000000, Ok(1448686286394745)),
    (77794363711233027, 2500000, 244, 2500000, 45, 30000, Ok(17644627805492200)),
    (197604248275022295937898192, 1000000, 867, 3333333, 0, 10, Ok(0)),
    (190, 50000000, 983, 1000000, 0, 30000, Ok(0)),
    (13669530427694808, 5000000, 548, 499000000, 97, 1000000, Ok(4216937367684856567140659)),
    (91819506, 8000000, 4675602109040872, 50000000, 0, 10, Ok(0)),
    (236872252536937403114714526, 400000000, 360, 2500000, 0, 1000000, Ok(0)),
    (93270320980940421, 400000000, 77789075909888103, 3333333, 19729771321921818, 10, Ok(227710389353258)),
    (801428716643082181467441083, 1000000, 92451557734090204, 50000000, 0, 30000, Ok(0)),
    (99441026251374968, 3333333, 50430177534911073, 2000000, 0, 1000000, Ok(0)),
    (278631449, 2500000, 123, 499000000, 0, 30000, Ok(0)),
    (152558735, 499000000, 677040250927793940910881463, 12345678, 132412683484744605289246984, 1000000, Ok(915235)),
    (859064367070561559510547822, 3333333, 158034486, 3333333, 19193793, 30000, Ok(119117244750497254603695603)),
    (34586773257212007, 50000000, 48986440838636257, 499000000, 0, 30000, Ok(0)),
    (833955060, 1000000, 98, 10000000, 0, 10, Ok(0)),
    (95207009470866932, 10000000, 18428516794457496, 50000000, 3254447474450332, 10, Ok(156335226106302931)),
    (98183459495124718, 2500000, 269, 499000000, 67, 30000, Err(Error::ArithmeticOverflow)),
    (16700385583371948, 50000000, 19528173773050016, 10000000, 2431232000058212, 100, Ok(450059851607691)),
    (315568827, 5000000, 33460683641150864, 5000000, 0, 100, Ok(0)),
    (967, 2500000, 21001583158806710, 8000000, 6550920550169252, 1000000, Ok(2480)),
    (406239327, 5000000, 370, 8000000, 2, 100, Ok(3538422)),
    (7775305479043278, 499000000, 11658653136919070, 50000000, 0, 30000, Ok(0)),
    (12599159108246193, 499000000, 923414720854769149517559751, 2500000, 173375007573390502098935369, 10, Ok(13138416256497)),
    (955584096, 5000000, 279314437, 5000000, 0, 30000, Ok(0)),
    (28529996970232984, 1000000, 48270276, 499000000, 2545941, 30000, Ok(15823059895300021218946503780)),
    (546684911960751566068260271, 2000000, 8213212206547467, 499000000, 0, 100, Ok(0)),
    (735991785462437697383492590, 2500000, 176745551488696313968037574, 1000000, 17107401696378627263152456, 1000000, Ok(33987609991465064573371433)),
    (656337381287415610476469782, 499000000, 89270000329225445, 1000000, 27055966584725739, 30000, Ok(476881443334607691303065)),
    (4194715, 499000000, 734829137, 2000000, 554994051, 10, Err(Error::OutOfBounds)),
    (591013479, 12345678, 516596793, 2500000, 299000622, 10, Err(Error::OutOfBounds)),
    (871701842903144691334812344, 400000000, 375117726063459069610055435, 499000000, 17570884994231599323794186, 100, Ok(53762225762203328984549597)),
    (31, 10000000, 865542925, 10000000, 0, 10, Ok(0)),
    ];
    for (a, b, c, d, e, f, want) in table {
        assert_eq!(calc_in_given_out(a, b, c, d, e, f), want, "{} {} {} {} {} {}", a, b, c, d, e, f);
    }
}

#[test]
fn calc_pool_out_given_single_in_by_the_table() {
    let table: [(i128, i128, i128, i128, i128, i128, Result<i128, Error>); 40] = [
    (429372471815867, 2000000, 282268967, 500000000, 0, 30000, Ok(0)),
    (803194366, 3333333, 18960456658843756, 5833333, 0, 100, Ok(0)),
    (92871831209328181, 50000000, 514022761, 50000000, 11777654589211450, 30000, Ok(65186399)),
    (343, 499000000, 376149583608201895448603955, 500000000, 149, 10, Ok(161917135606203940265997009)),
    (763844230, 1000000, 830310700, 500000000, 0, 10, Ok(0)),
    (709304187, 1000000, 489, 500000000, 0, 30000, Ok(0)),
    (972791624, 499000000, 142, 549000000, 892895077, 30000, Ok(114)),
    (23935006877377713, 2000000, 230, 2000000, 0, 100, Ok(0)),
    (10054221468122301, 2500000, 891, 2500000, 3742669535103021, 100, Ok(331)),
    (174, 12345678, 829, 12345678, 0, 30000, Ok(0)),
    (347, 50000000, 621073538, 50000000, 48, 1000000, Ok(85912119)),
    (48669763968049064, 5000000, 512106858776763046261308122, 10000000, 45460200247103748, 100, Ok(200079201583657303743076918)),
    (647, 50000000, 45835450775763889, 500000000, 196, 100, Ok(1223480446966648)),
    (82278388720225250, 499000000, 183, 500000000, 27153695500364464, 10, Ok(60)),
    (800216051756989572483757725, 1000000, 98528970, 2000000, 319904800138566553725359711, 1000000, Ok(17207243)),
    (896, 400000000, 167243190, 410000000, 0, 100, Ok(0)),
    (858602495, 3333333, 276, 500000000, 355993642, 30000, Ok(0)),
    (781272822, 12345678, 924, 500000000, 173789015, 30000, Ok(4)),
    (85145180024745275670814533, 5000000, 296878293972488532129627136, 5000000, 43271861381093277774377642, 1000000, Ok(150877288069357628873013195)),
    (56360002318435203, 400000000, 659633378, 401000000, 25984530130375201, 100, Ok(303209536)),
    (598056983, 3333333, 99342247338729019, 500000000, 0, 100, Ok(0)),
    (814831507, 50000000, 425, 50000000, 812509852, 30000, Ok(423)),
    (50418956077870346, 3333333, 259, 500000000, 325321728446090, 10, Ok(0)),
    (976370682, 12345678, 711, 12345678, 450522551, 10, Ok(328)),
    (993, 2000000, 331, 12000000, 0, 1000000, Ok(0)),
    (396, 1000000, 622679377262925816840602069, 1000000, 11, 100, Ok(17296631591303248961431562)),
    (31547276400069555, 499000000, 815, 500000000, 0, 1000000, Ok(0)),
    (49, 12345678, 619, 12345678, 30, 100, Ok(378)),
    (262314732, 10000000, 15252181214442765, 10000000, 40003144, 100, Ok(2325964903765941)),
    (530, 2000000, 648883936, 500000000, 0, 30000, Ok(0)),
    (583309830052027714159828269, 3333333, 406, 5333333, 0, 1000000, Ok(0)),
    (626, 3333333, 85839344215634033, 3333333, 281, 100, Ok(38531705992655791)),
    (404756869120727663522461424, 5000000, 675, 8333333, 35957123434112294497472207, 30000, Ok(35)),
    (826030570, 8000000, 172, 500000000, 0, 100, Ok(0)),
    (299264780406407623186381394, 10000000, 305912916124246242205038522, 10000000, 134594274614472165807919515, 10, Ok(137584269076716974750652952)),
    (29422643645250078, 12345678, 5010821932998390, 12345678, 6674366690962643, 100, Ok(1136677577488664)),
    (239189787739817334360836785, 499000000, 801628447592173285945399291, 499000000, 56022924222098321542417272, 1000000, Ok(187756953828651829167653716)),
    (53723171077946236, 50000000, 28145234107979387, 50000000, 7018813661358131, 100, Ok(3677110054825047)),
    (102684779, 12345678, 245068224, 500000000, 0, 1000000, Ok(0)),
    (70456871629174817, 5000000, 95433717115842694, 500000000, 8423393874287575, 30000, Ok(107512545738176)),
    ];
    for (a, b, c, d, e, f, want) in table {
        assert_eq!(calc_pool_out_given_single_in(a, b, c, d, e, f), want, "{} {} {} {} {} {}", a, b, c, d, e, f);
    }
}

#[test]
fn calc_single_in_given_pool_out_by_the_table() {
    let table: [(i128, i128, i128, i128, i128, i128, Result<i128, Error>); 40] = [
    (490, 50000000, 288, 50000000, 2, 1000000, Ok(4)),
    (76455812102405946, 3333333, 201493651, 500000000, 18420373, 10, Ok(38207648390839962979789)),
    (371, 12345678, 42, 12345678, 11, 30000, Ok(98)),
    (74329265384558475, 12345678, 743, 12345678, 64, 10, Ok(6402522231209329)),
    (837058352, 400000000, 63183703, 500000000, 1354493, 100, Ok(22490464)),
    (441, 400000000, 99996313561566342, 400000000, 38133786156564243, 100, Ok(169)),
    (832, 400000000, 744441581, 402000000, 256481575, 1000000, Ok(290)),
    (19545426519601609, 5000000, 23078416718996786, 17345678, 0, 10, Ok(0)),
    (229511763706328452858861983, 5000000, 912284385, 500000000, 33042464, 1000000, Ok(8683638383888866759310933705)),
    (79466846875158614, 400000000, 16898036585772972, 450000000, 0, 30000, Ok(0)),
    (646, 50000000, 749847659244948287772123983, 50000000, 75189859960013051417909594, 100, Ok(65)),
    (553632744, 499000000, 911, 549000000, 83, 100, Ok(55741905)),
    (56411881484591517, 12345678, 445181395, 500000000, 35607515, 100, Ok(1216451084581547052)),
    (646824129418951446056839983, 5000000, 161189514814538160241577428, 13000000, 136275826418985762989310888, 1000000, Ok(2701008384550442158423915000)),
    (423312400, 12345678, 452, 511345678, 174, 1000000, Ok(338368122113864)),
    (46, 3333333, 47651751023238621, 3333333, 2295688460921703, 100, Ok(3)),
    (720230641, 400000000, 674, 400000000, 0, 1000000, Ok(0)),
    (410285100, 499000000, 9228914741048318, 500000000, 583135984232891, 10, Ok(25977861)),
    (669, 2000000, 44844379616180193, 500000000, 6900151081059224, 10, Ok(2314975009197790500)),
    (98224589928579863, 1000000, 400, 3500000, 0, 10, Ok(0)),
    (511019669, 2500000, 39683678805436195, 12500000, 0, 10, Ok(0)),
    (131775586, 499000000, 17467838390499114, 499000000, 0, 1000000, Ok(0)),
    (503881250986906411910735807, 5000000, 32375988737271524, 5000000, 2984090802346019, 10, Ok(46442684515338065295171329)),
    (73944012379154570, 499000000, 791, 899000000, 0, 10, Ok(0)),
    (48133896128162705, 50000000, 736770074, 52000000, 0, 30000, Ok(0)),
    (36868679148538637, 5000000, 27906381978033883, 5000000, 1819021827380666, 30000, Ok(2403214799807109)),
    (601957539, 3333333, 124643119, 3333333, 0, 10, Ok(0)),
    (745159344, 2000000, 86840469611457690, 2000000, 8598140129199785, 30000, Ok(73778823)),
    (937, 1000000, 527707008261231331564127302, 1000000, 13290458913418660645100189, 10, Ok(24)),
    (557, 50000000, 470604112, 55000000, 0, 100, Ok(0)),
    (994329432, 5000000, 561681664, 405000000, 0, 1000000, Ok(0)),
    (612203904143839043157937515, 2500000, 827963393121619861681685788, 2500000, 0, 10, Ok(0)),
    (59561287274241008, 2000000, 973, 4500000, 38, 1000000, Ok(5677410899715029)),
    (736, 3333333, 15915183924447231, 500000000, 0, 30000, Ok(0)),
    (788, 499000000, 856553544, 500000000, 59600398, 1000000, Ok(56)),
    (432, 3333333, 591816046, 3333333, 0, 1000000, Ok(0)),
    (693, 400000000, 435667356, 500000000, 28869172, 100, Ok(59)),
    (64097843646319789, 2500000, 325169014, 500000000, 11246400, 1000000, Ok(63860739159850081873)),
    (272241504433080597947282837, 2500000, 545597685, 500000000, 40161426, 100, Err(Error::ArithmeticOverflow)),
    (671830389, 2500000, 213, 500000000, 0, 10, Ok(0)),
    ];
    for (a, b, c, d, e, f, want) in table {
        assert_eq!(calc_single_in_given_pool_out(a, b, c, d, e, f), want, "{} {} {} {} {} {}", a, b, c, d, e, f);
    }
}

#[test]
fn calc_single_out_given_pool_in_by_the_table() {
    let table: [(i128, i128, i128, i128, i128, i128, Result<i128, Error>); 40] = [
    (678, 12345678, 77, 12345678, 0, 30000, Ok(0)),
    (93304719652114012631260501, 5000000, 46668818989702923, 13000000, 43371371761872770, 30000, Ok(93037614380940779523452289)),
    (696994546356003468180277661, 12345678, 595, 500000000, 0, 100, Ok(0)),
    (52515007283297438, 10000000, 560371738, 10000000, 122465065, 100, Ok(11476760979210030)),
    (878, 2000000, 396, 500000000, 0, 30000, Ok(0)),
    (668250422634327798591235052, 499000000, 949, 501500000, 764, 10, Ok(539042144762492749078962404)),
    (89291394789706441584675585, 10000000, 418, 500000000, 0, 100, Ok(0)),
    (169, 12345678, 44097243542229962, 12345678, 36469175809874848, 30000, Ok(139)),
    (496496839, 50000000, 875323755, 50000000, 0, 30000, Ok(0)),
    (26212352690245822, 1000000, 592, 4333333, 350, 10, Ok(25669104736557680)),
    (875753469, 3333333, 119, 5333333, 0, 1000000, Ok(0)),
    (291251273, 1000000, 704400224867483398369854643, 1000000, 0, 1000000, Ok(0)),
    (194, 5000000, 835, 500000000, 0, 10, Ok(0)),
    (56807472, 2000000, 565534419389485013251426503, 3000000, 27613745689376988407055117, 30000, Ok(4105336)),
    (149384534, 50000000, 99708913103297487, 50000000, 0, 1000000, Ok(0)),
    (98253916298811381, 10000000, 981771251, 500000000, 0, 1000000, Ok(0)),
    (20113727033390429, 499000000, 560, 501000000, 315, 30000, Ok(11342933868341499)),
    (260264465973451999772508090, 5000000, 79151149275699607, 17345678, 0, 10, Ok(0)),
    (165, 12345678, 44, 62345678, 37, 100, Ok(163)),
    (27598033787497859, 12345678, 69527515215830437, 511345678, 0, 10, Ok(0)),
    (475887133, 10000000, 915013345, 22345678, 640474569, 30000, Ok(442850431)),
    (7102457015947143, 3333333, 264795786, 8333333, 121078952, 100, Ok(5561074150678005)),
    (24832265491251034, 10000000, 643, 10000000, 60, 100, Ok(2317160773652362)),
    (697250419, 2500000, 69191515806535811, 500000000, 56895459732615911, 10, Ok(697249651)),
    (35188070, 1000000, 61, 4333333, 58, 1000000, Ok(32481222)),
    (96377174855553907, 8000000, 51, 500000000, 6, 1000000, Ok(86858842559864900)),
    (863142018, 3333333, 622084131, 500000000, 444130244, 1000000, Ok(777403108)),
    (732391375971171430820733840, 2500000, 92745199286991676478806270, 5000000, 0, 30000, Ok(0)),
    (943620199, 400000000, 864034480, 402500000, 163029246, 30000, Ok(179041884)),
    (14914655128775541, 3333333, 684182628907873005846558871, 500000000, 102530832622163110521846764, 30000, Ok(14870206478005480)),
    (216396201911548607098375775, 10000000, 64993775931417040, 20000000, 6208610751016791, 100, Ok(39368136623115170685973926)),
    (956171342, 50000000, 722, 500000000, 71, 10, Ok(616565690)),
    (79, 400000000, 50186405153390095, 500000000, 0, 30000, Ok(0)),
    (395, 2000000, 62966650548360757, 2000000, 3074557191838296, 100, Ok(19)),
    (46953884056182242, 2000000, 45815557702196903, 500000000, 53432273167891, 1000000, Ok(10696624638163868)),
    (645, 5000000, 30256355223017610, 5000000, 0, 30000, Ok(0)),
    (685572673, 3333333, 15840196745116350, 500000000, 163473348479288, 10, Ok(540937824)),
    (15122848942169832, 12345678, 728, 12345678, 317, 10, Ok(6585085781953960)),
    (704546381472206338942519830, 10000000, 162491514083162, 13333333, 5125312860324, 10, Ok(29473350388757185768129826)),
    (559872134, 499000000, 838535637973284944248302664, 499000000, 109793377094658497075200592, 100, Ok(73306633)),
    ];
    for (a, b, c, d, e, f, want) in table {
        assert_eq!(calc_single_out_given_pool_in(a, b, c, d, e, f), want, "{} {} {} {} {} {}", a, b, c, d, e, f);
    }
}

#[test]
fn calc_pool_in_given_single_out_by_the_table() {
    let table: [(i128, i128, i128, i128, i128, i128, Result<i128, Error>); 40] = [
    (744533120, 499000000, 597, 500000000, 0, 1000000, Ok(0)),
    (18271172446355468, 2000000, 87779129352962096, 2000000, 1726080051138376, 10, Ok(8292512808912830)),
    (188910074, 2000000, 37437940, 2000000, 0, 30000, Ok(0)),
    (172471520364314986539154082, 2500000, 81037000455730889, 2500000, 29719745978086983219399408, 10, Ok(13964040305090164)),
    (83353333728671211, 2000000, 482, 2000000, 0, 10, Ok(0)),
    (41359280, 499000000, 63970590844054587, 511345678, 0, 30000, Ok(0)),
    (657, 499000000, 34811219045084760, 499000000, 90, 100, Ok(4768661213171205)),
    (79004918521361301, 3333333, 240891355995920062622194325, 3333333, 9034662405541474, 10, Ok(27547304008671513531423912)),
    (83720027546318453, 3333333, 778, 3333333, 14198252466847607, 100, Ok(132)),
    (68, 5000000, 273, 504000000, 17, 10, Ok(1)),
    (509, 8000000, 61312665620169377, 408000000, 49, 30000, Ok(124200346811862)),
    (124473673, 50000000, 93078739645464570, 500000000, 72984046, 1000000, Err(Error::OutOfBounds)),
    (288, 5000000, 324180284, 5000000, 51, 10, Ok(57406932)),
    (413082624, 400000000, 94357362894139264, 400000000, 396054639, 30000, Err(Error::OutOfBounds)),
    (308817231463464649185035688, 499000000, 318, 499000000, 87354101908819740876152734, 10, Ok(90)),
    (48163125982185129519665413, 5000000, 980972029, 5000000, 13498298489177504161683469, 30000, Ok(274929298)),
    (327477150805379384424373755, 2000000, 80215533591890917, 2000000, 193946015421475326096556454, 1000000, Err(Error::OutOfBounds)),
    (784550975, 10000000, 219, 500000000, 0, 1000000, Ok(0)),
    (122, 50000000, 81632423087838918, 52500000, 25, 1000000, Ok(16659783861178277)),
    (448651171, 5000000, 57779365027610708, 500000000, 5603480, 10, Ok(7273506322531)),
    (446166107, 50000000, 915181464314354196028129718, 50000000, 95911939, 10, Ok(196735787456165232330758702)),
    (60, 10000000, 801, 410000000, 0, 1000000, Ok(0)),
    (676, 12345678, 91830508584250835917281723, 17345678, 0, 100, Ok(0)),
    (186992504, 8000000, 761006512751938948220976563, 500000000, 5739662, 1000000, Ok(421820270450233641105997)),
    (154, 8000000, 93535261015890439, 58000000, 5, 30000, Ok(511324670907468)),
    (90366164214017058, 2000000, 697897669267921575306413968, 2000000, 7451862958578257, 100, Ok(57550732682737783646757467)),
    (102061939, 50000000, 988058799327098540227002669, 50000000, 84966175, 1000000, Err(Error::OutOfBounds)),
    (27800693, 8000000, 728, 8000000, 9248501, 30000, Ok(243)),
    (522, 1000000, 123454964, 11000000, 51, 100, Ok(1172142)),
    (44945580049182626, 12345678, 822, 12345678, 166119732561832, 100, Ok(4)),
    (137, 8000000, 140, 500000000, 22, 100, Ok(1)),
    (99235949930566738, 1000000, 287782350894594893802523229, 500000000, 34059651953371784, 30000, Ok(242970776200043648380251)),
    (754, 3333333, 646851524, 5833333, 152, 30000, Ok(78626392)),
    (12025909711817542, 10000000, 120394239, 12000000, 405377907090190, 30000, Ok(3393297)),
    (94515714137515583, 5000000, 87743627902247243, 405000000, 54389794903354903, 10, Err(Error::OutOfBounds)),
    (8951915409152073, 10000000, 21745929253090090, 10000000, 438444383768403, 100, Ok(1065066499876762)),
    (878874221, 3333333, 953854670, 5333333, 698950515, 10, Err(Error::OutOfBounds)),
    (14232159792516965, 400000000, 43550431515193312, 400000000, 0, 100, Ok(0)),
    (55, 3333333, 631493685, 6666666, 45, 100, Err(Error::OutOfBounds)),
    (491, 1000000, 145377732917822204035093761, 500000000, 68, 1000000, Ok(48917679209317097743113)),
    ];
    for (a, b, c, d, e, f, want) in table {
        assert_eq!(calc_pool_in_given_single_out(a, b, c, d, e, f), want, "{} {} {} {} {} {}", a, b, c, d, e, f);
    }
}

#[test]
fn spot_prices_by_the_table() {
    let table: [(i128, i128, i128, i128, i128, Result<i128, Error>); 40] = [
    (947557565064776204398325852, 499000000, 559828568132813090112324602, 3333333, 100, Ok(113068)),
    (731, 2000000, 65761341781524427, 400000000, 30000, Ok(2)),
    (190199943, 8000000, 202, 499000000, 30000, Ok(596163355778385)),
    (931382762, 2000000, 44158244807177321, 5000000, 30000, Ok(2)),
    (35539767030581944, 2000000, 399920863, 5000000, 10, Ok(2221677424986309)),
    (47415689837828407, 1000000, 341728559884222082739947664, 2000000, 10, Ok(2)),
    (246937696, 1000000, 561, 2000000, 1000000, Ok(9781648475146)),
    (27729502474921423, 8000000, 830, 499000000, 10, Ok(21663697638573551260599)),
    (174909633, 50000000, 95672258921572629, 2000000, 30000, Ok(2)),
    (17151480924926775, 8000000, 940184147, 3333333, 100, Ok(76011937372338)),
    (87111560491445887, 1000000, 776, 400000000, 30000, Ok(459861515200635246413536)),
    (242283933, 10000000, 86847423693303885, 50000000, 30000, Ok(2)),
    (136459167, 10000000, 537, 2000000, 10, Ok(508228369107)),
    (581, 400000000, 685, 1000000, 1000000, Ok(24332)),
    (467679215702070357280246305, 2000000, 128693622, 10000000, 1000000, Ok(201891751315300705874174250)),
    (34418668852710226, 2000000, 53131061452676076, 2000000, 30000, Ok(6497564)),
    (18967795740502831, 10000000, 24726657177592686, 50000000, 1000000, Ok(42616619)),
    (51369365021807389, 12345678, 39415886581479033, 12345678, 10, Ok(13032670)),
    (41609680196094942, 2500000, 958, 12345678, 10, Ok(2147598759573840397649)),
    (383526538, 499000000, 47696808629477750, 50000000, 100, Ok(2)),
    (625662680, 2500000, 454988516046100105778377339, 10000000, 30000, Ok(2)),
    (36923114024339618, 2000000, 192176468, 2500000, 1000000, Ok(2668490447756124)),
    (93, 499000000, 9797050441985622, 50000000, 10, Ok(2)),
    (50080787517061737, 12345678, 58989553235119549, 12345678, 30000, Ok(8515320)),
    (711311238, 5000000, 915046896, 2500000, 10, Ok(3886753)),
    (887, 3333333, 12, 3333333, 1000000, Ok(821605005)),
    (587, 2500000, 26, 400000000, 1000000, Err(Error::DivisionByZero)),
    (921, 8000000, 259097916, 5000000, 1000000, Ok(26)),
    (973, 8000000, 216, 5000000, 1000000, Ok(31301444)),
    (23059156833531180, 3333333, 965, 50000000, 100, Ok(3584361456521409701916)),
    (535, 8000000, 74210583, 1000000, 30000, Ok(11)),
    (237, 2000000, 308178225, 2000000, 100, Ok(9)),
    (953436581, 5000000, 913047021053344997803141876, 50000000, 30000, Ok(2)),
    (483, 400000000, 162303906363021975544015750, 2500000, 1000000, Ok(2)),
    (472600945, 8000000, 55, 1000000, 1000000, Ok(11934368267882)),
    (285, 499000000, 733713895, 2000000, 30000, Ok(2)),
    (735, 10000000, 242522196, 10000000, 1000000, Ok(35)),
    (20750645, 5000000, 61810499711422334, 1000000, 1000000, Ok(2)),
    (86129242636112657, 2500000, 36, 2500000, 10, Ok(23924815938410987978869)),
    (792, 2000000, 542041974909266423181172528, 3333333, 1000000, Ok(2)),
    ];
    for (a, b, c, d, e, want) in table {
        assert_eq!(calc_spot_price(a, b, c, d, e), want, "{} {} {} {} {}", a, b, c, d, e);
    }
}
